//! Root compatibility for a composed state machine: after qualification, the
//! machine's states, profiles, settings and artifact paths are renamed back
//! to the stable names its root promised.
use vstd::prelude::*;
use crate::compat::{
    rename_slots, entry_matches_slot, rename_yaml_keys, replace_compatible, replace_target_settings,
    replaced_value, target_settings_replaced, ArtifactEndpoint, ResolvedCompatibility,
};
use crate::report::Report;
use crate::text::{push_str, str_eq};
use crate::yaml::{entry_get, get, is_string, yaml_get, Yaml, YamlEntry};

verus! {

// ---------------------------------------------------------------------------
// Fields of a mapping
// ---------------------------------------------------------------------------

/// The index of the first entry keyed by the string `k`.
pub open spec fn first_key(es: Seq<YamlEntry>, k: Seq<char>) -> Option<int>
    decreases es.len(),
{
    if es.len() == 0 {
        None
    } else if is_string(es[0].key, k) {
        Some(0)
    } else {
        match first_key(es.drop_first(), k) {
            Some(i) => Some(i + 1),
            None => None,
        }
    }
}

/// The first position of `k` among `names`, or the number of names.
pub open spec fn name_index(names: Seq<Seq<char>>, k: Seq<char>) -> int
    decreases names.len(),
{
    if names.len() == 0 {
        0
    } else if names[0] == k {
        0
    } else {
        1 + name_index(names.drop_first(), k)
    }
}

/// Which of `names` entry `i` is the field of: the entry must be the first
/// one keyed by that name, as a lookup by key finds it.
pub open spec fn field_at(es: Seq<YamlEntry>, i: int, names: Seq<Seq<char>>) -> Option<int> {
    match es[i].key {
        Yaml::Str(k) => {
            let f = name_index(names, k@);
            if f < names.len() && first_key(es, k@) == Some(i) {
                Some(f)
            } else {
                None
            }
        },
        _ => None,
    }
}

/// Two entry lists with the same keys in the same order.
pub open spec fn same_shape(es: Seq<YamlEntry>, ns: Seq<YamlEntry>) -> bool {
    &&& ns.len() == es.len()
    &&& forall|i: int|
        0 <= i < es.len() ==> (#[trigger] ns[i]).key == es[i].key && ns[i].key_debug == es[i].key_debug
}

proof fn lemma_first_key_char(es: Seq<YamlEntry>, k: Seq<char>)
    ensures
        match first_key(es, k) {
            Some(i) => 0 <= i < es.len() && is_string(es[i].key, k) && forall|j: int|
                0 <= j < i ==> !is_string(#[trigger] es[j].key, k),
            None => forall|j: int| 0 <= j < es.len() ==> !is_string(#[trigger] es[j].key, k),
        },
        first_key(es, k) matches Some(i) ==> entry_get(es, k) == Some(es[i].value),
        first_key(es, k) is None ==> entry_get(es, k) is None,
    decreases es.len(),
{
    if es.len() > 0 && !is_string(es[0].key, k) {
        lemma_first_key_char(es.drop_first(), k);
        match first_key(es.drop_first(), k) {
            Some(i) => {
                assert forall|j: int| 0 <= j < i + 1 implies !is_string(#[trigger] es[j].key, k) by {
                    if j > 0 {
                        assert(es[j] == es.drop_first()[j - 1]);
                    }
                }
            },
            None => {
                assert forall|j: int| 0 <= j < es.len() implies !is_string(#[trigger] es[j].key, k) by {
                    if j > 0 {
                        assert(es[j] == es.drop_first()[j - 1]);
                    }
                }
            },
        }
    }
}

proof fn lemma_name_index(names: Seq<Seq<char>>, k: Seq<char>)
    ensures
        0 <= name_index(names, k) <= names.len(),
        name_index(names, k) < names.len() ==> names[name_index(names, k)] == k,
        forall|f: int| 0 <= f < name_index(names, k) ==> names[f] != k,
    decreases names.len(),
{
    if names.len() > 0 && names[0] != k {
        lemma_name_index(names.drop_first(), k);
        assert forall|f: int| 0 <= f < name_index(names, k) implies names[f] != k by {
            if f > 0 {
                assert(names[f] == names.drop_first()[f - 1]);
            }
        }
    }
}

proof fn lemma_name_index_at(names: Seq<Seq<char>>, k: Seq<char>, f: int)
    requires
        0 <= f <= names.len(),
        forall|j: int| 0 <= j < f ==> names[j] != k,
        f < names.len() ==> names[f] == k,
    ensures
        name_index(names, k) == f,
    decreases names.len(),
{
    if names.len() > 0 && f > 0 {
        assert forall|j: int| 0 <= j < f - 1 implies names.drop_first()[j] != k by {
            assert(names.drop_first()[j] == names[j + 1]);
        }
        lemma_name_index_at(names.drop_first(), k, f - 1);
    }
}

fn name_position(names: &Vec<&str>, k: &str) -> (f: usize)
    ensures
        f == name_index(names@.map_values(|n: &str| n@), k@),
{
    let ghost views = names@.map_values(|n: &str| n@);
    let mut f: usize = 0;
    while f < names.len()
        invariant
            f <= names@.len(),
            views == names@.map_values(|n: &str| n@),
            forall|j: int| 0 <= j < f ==> views[j] != k@,
        decreases names.len() - f,
    {
        if str_eq(names[f], k) {
            assert(views[f as int] == k@);
            proof {
                lemma_name_index_at(views, k@, f as int);
            }
            return f;
        }
        f += 1;
    }
    proof {
        lemma_name_index_at(views, k@, f as int);
    }
    f
}

/// Whether some earlier entry (before `i`) claimed field name `n`.
pub open spec fn claimed_before(es: Seq<YamlEntry>, n: Seq<char>, i: int) -> bool {
    first_key(es, n) matches Some(j) && j < i
}

/// The field index of entry `i` (`field_at`), found with `seen` recording
/// which names earlier entries already claimed.
fn field_of_entry(
    es: &Vec<YamlEntry>,
    i: usize,
    names: &Vec<&str>,
    seen: &mut Vec<bool>,
) -> (out: Option<usize>)
    requires
        i < es@.len(),
        old(seen)@.len() == names@.len(),
        forall|f: int|
            0 <= f < names@.len() ==> #[trigger] old(seen)@[f] == claimed_before(es@, names@[f]@, i as int),
    ensures
        final(seen)@.len() == names@.len(),
        forall|f: int|
            0 <= f < names@.len() ==> #[trigger] final(seen)@[f] == claimed_before(es@, names@[f]@, i + 1),
        match field_at(es@, i as int, names@.map_values(|n: &str| n@)) {
            Some(f) => out matches Some(g) && g == f,
            None => out is None,
        },
{
    let ghost views = names@.map_values(|n: &str| n@);
    let ghost before = seen@;
    match &es[i].key {
        Yaml::Str(k) => {
            let f = name_position(names, k.as_str());
            proof {
                lemma_name_index(views, k@);
                lemma_first_key_char(es@, k@);
            }
            let was_seen = if f < names.len() {
                seen[f]
            } else {
                true
            };
            let mut g: usize = 0;
            while g < names.len()
                invariant
                    g <= names@.len(),
                    seen@.len() == names@.len(),
                    i < es@.len(),
                    es@[i as int].key == Yaml::Str(*k),
                    forall|h: int| g <= h < names@.len() ==> #[trigger] seen@[h] == before[h],
                    forall|h: int| 0 <= h < g ==> #[trigger] seen@[h] == (before[h] || names@[h]@ == k@),
                decreases names.len() - g,
            {
                if str_eq(names[g], k.as_str()) {
                    seen.set(g, true);
                }
                g += 1;
            }
            proof {
                assert forall|h: int| 0 <= h < names@.len() implies #[trigger] seen@[h] == claimed_before(es@, names@[h]@, i + 1) by {
                    lemma_first_key_char(es@, names@[h]@);
                    assert(before[h] == claimed_before(es@, names@[h]@, i as int));
                }
                if f < names.len() {
                    assert(views[f as int] == names@[f as int]@);
                }
            }
            if f < names.len() && !was_seen {
                Some(f)
            } else {
                None
            }
        },
        _ => {
            proof {
                assert forall|h: int| 0 <= h < names@.len() implies #[trigger] seen@[h] == claimed_before(es@, names@[h]@, i + 1) by {
                    lemma_first_key_char(es@, names@[h]@);
                }
            }
            None
        },
    }
}

// ---------------------------------------------------------------------------
// What each part of a machine becomes
// ---------------------------------------------------------------------------

/// An artifact declaration: its first `path` renamed through `ap`.
pub open spec fn artifact_item_rel(o: Yaml, n: Yaml, ap: Seq<(String, String)>) -> bool {
    match o {
        Yaml::Mapping(es) => n matches Yaml::Mapping(ns) && same_shape(es@, ns@) && (forall|i: int|
            0 <= i < es@.len() ==> #[trigger] artifact_field_ok(es@, ns@, i, ap)),
        _ => n == o,
    }
}

pub open spec fn artifact_field_ok(es: Seq<YamlEntry>, ns: Seq<YamlEntry>, i: int, ap: Seq<(String, String)>) -> bool {
    if first_key(es, "path"@) == Some(i) {
        replaced_value(es[i].value, ns[i].value, ap)
    } else {
        ns[i].value == es[i].value
    }
}

/// A list of artifact declarations, each renamed.
pub open spec fn artifacts_rel(o: Yaml, n: Yaml, ap: Seq<(String, String)>) -> bool {
    match o {
        Yaml::Sequence(xs) => n matches Yaml::Sequence(ys) && ys@.len() == xs@.len() && (forall|i: int|
            0 <= i < xs@.len() ==> #[trigger] artifact_item_rel(xs@[i], ys@[i], ap)),
        _ => n == o,
    }
}

/// A list of names, each renamed.
pub open spec fn seq_replaced(o: Yaml, n: Yaml, m: Seq<(String, String)>) -> bool {
    match o {
        Yaml::Sequence(xs) => n matches Yaml::Sequence(ys) && ys@.len() == xs@.len() && (forall|i: int|
            0 <= i < xs@.len() ==> #[trigger] replaced_value(xs@[i], ys@[i], m)),
        _ => n == o,
    }
}

/// A mapping whose every value is renamed.
pub open spec fn values_replaced(o: Yaml, n: Yaml, m: Seq<(String, String)>) -> bool {
    match o {
        Yaml::Mapping(es) => n matches Yaml::Mapping(ns) && same_shape(es@, ns@) && (forall|i: int|
            0 <= i < es@.len() ==> #[trigger] replaced_value(es@[i].value, ns@[i].value, m)),
        _ => n == o,
    }
}

/// The fields of a state definition that name something: artifacts in,
/// artifacts out, agent, model, target, all targets.
pub open spec fn state_fields() -> Seq<Seq<char>> {
    seq!["inputs"@, "outputs"@, "agent"@, "model"@, "target"@, "all_targets"@]
}

/// The fields of a transition: its two states.
pub open spec fn transition_fields() -> Seq<Seq<char>> {
    seq!["from"@, "to"@]
}

/// The fields of a profile: its initial and allowed states.
pub open spec fn profile_fields() -> Seq<Seq<char>> {
    seq!["initial"@, "allowed"@]
}

/// The fields of the node policy: profiles for the root, by default and by
/// node type.
pub open spec fn policy_fields() -> Seq<Seq<char>> {
    seq!["root"@, "default"@, "by_type"@]
}

pub open spec fn layer_fields(layer: int) -> Seq<Seq<char>> {
    if layer == 0 {
        state_fields()
    } else if layer == 1 {
        transition_fields()
    } else if layer == 2 {
        profile_fields()
    } else {
        policy_fields()
    }
}

/// What field `f` of a layer becomes: 0 a state definition, 1 a
/// transition, 2 a profile, 3 the node policy.
pub open spec fn field_value_ok(layer: int, f: int, o: Yaml, n: Yaml, c: ResolvedCompatibility, ap: Seq<(String, String)>) -> bool {
    if layer == 0 {
        if f < 2 {
            artifacts_rel(o, n, ap)
        } else if f < 4 {
            replaced_value(o, n, c.settings@)
        } else {
            target_settings_replaced(o, n, c.settings@)
        }
    } else if layer == 1 {
        replaced_value(o, n, c.states@)
    } else if layer == 2 {
        if f == 0 {
            replaced_value(o, n, c.states@)
        } else {
            seq_replaced(o, n, c.states@)
        }
    } else {
        if f < 2 {
            replaced_value(o, n, c.profiles@)
        } else {
            values_replaced(o, n, c.profiles@)
        }
    }
}

pub open spec fn field_ok(layer: int, es: Seq<YamlEntry>, ns: Seq<YamlEntry>, i: int, c: ResolvedCompatibility, ap: Seq<(String, String)>) -> bool {
    match field_at(es, i, layer_fields(layer)) {
        Some(f) => field_value_ok(layer, f, es[i].value, ns[i].value, c, ap),
        None => ns[i].value == es[i].value,
    }
}

/// A mapping of the given layer with its naming fields renamed; anything
/// that is not a mapping is left as it is.
pub open spec fn mapping_rel(layer: int, o: Yaml, n: Yaml, c: ResolvedCompatibility, ap: Seq<(String, String)>) -> bool {
    match o {
        Yaml::Mapping(es) => n matches Yaml::Mapping(ns) && same_shape(es@, ns@) && (forall|i: int|
            0 <= i < es@.len() ==> #[trigger] field_ok(layer, es@, ns@, i, c, ap)),
        _ => n == o,
    }
}

// ---------------------------------------------------------------------------
// Executable rewrites of the parts
// ---------------------------------------------------------------------------

/// The index of the first entry keyed by `k`, or the number of entries.
fn first_key_index(es: &Vec<YamlEntry>, k: &str) -> (r: usize)
    ensures
        match first_key(es@, k@) {
            Some(i) => r == i,
            None => r == es@.len(),
        },
{
    proof {
        lemma_first_key_char(es@, k@);
    }
    let mut i: usize = 0;
    while i < es.len()
        invariant
            i <= es@.len(),
            forall|j: int| 0 <= j < i ==> !is_string(#[trigger] es@[j].key, k@),
            match first_key(es@, k@) {
                Some(x) => 0 <= x < es@.len() && is_string(es@[x].key, k@) && forall|j: int|
                    0 <= j < x ==> !is_string(#[trigger] es@[j].key, k@),
                None => forall|j: int| 0 <= j < es@.len() ==> !is_string(#[trigger] es@[j].key, k@),
            },
        decreases es.len() - i,
    {
        let hit = match &es[i].key {
            Yaml::Str(key) => str_eq(key.as_str(), k),
            _ => false,
        };
        if hit {
            return i;
        }
        i += 1;
    }
    i
}

fn rewrite_artifact_item(v: Yaml, ap: &Vec<(String, String)>) -> (out: Yaml)
    ensures
        artifact_item_rel(v, out, ap@),
{
    match v {
        Yaml::Mapping(es) => {
            let p = first_key_index(&es, "path");
            let ghost old_es = es@;
            assert(old_es.len() == es.len());
            let mut rest = es;
            let mut done: Vec<YamlEntry> = Vec::new();
            let mut k: usize = 0;
            while rest.len() > 0
                invariant
                    old_es.len() <= usize::MAX,
                    k == done@.len(),
                    k + rest@.len() == old_es.len(),
                    rest@ == old_es.skip(k as int),
                    match first_key(old_es, "path"@) {
                        Some(i) => p == i,
                        None => p == old_es.len(),
                    },
                    forall|j: int| 0 <= j < k ==> (#[trigger] done@[j]).key == old_es[j].key && done@[j].key_debug == old_es[j].key_debug,
                    forall|j: int| 0 <= j < k ==> #[trigger] artifact_field_ok(old_es, done@, j, ap@),
                decreases rest@.len(),
            {
                let e = rest.remove(0);
                assert(e == old_es[k as int]);
                let YamlEntry { key, key_debug, value } = e;
                let mut value = value;
                if k == p {
                    replace_compatible(&mut value, ap);
                }
                let ghost before = done@;
                done.push(YamlEntry { key, key_debug, value });
                proof {
                    assert forall|j: int| 0 <= j < k + 1 implies #[trigger] artifact_field_ok(old_es, done@, j, ap@) by {
                        if j < k {
                            assert(done@[j] == before[j]);
                            assert(artifact_field_ok(old_es, before, j, ap@));
                        }
                    }
                }
                k += 1;
                assert(rest@ =~= old_es.skip(k as int));
            }
            Yaml::Mapping(done)
        },
        other => other,
    }
}

fn rewrite_artifacts(v: Yaml, ap: &Vec<(String, String)>) -> (out: Yaml)
    ensures
        artifacts_rel(v, out, ap@),
{
    match v {
        Yaml::Sequence(xs) => {
            let ghost all = xs@;
            let mut rest = xs;
            let mut done: Vec<Yaml> = Vec::new();
            while rest.len() > 0
                invariant
                    done@.len() + rest@.len() == all.len(),
                    rest@ == all.skip(done@.len() as int),
                    forall|i: int| 0 <= i < done@.len() ==> #[trigger] artifact_item_rel(all[i], done@[i], ap@),
                decreases rest@.len(),
            {
                let item = rest.remove(0);
                assert(item == all[done@.len() as int]);
                done.push(rewrite_artifact_item(item, ap));
                assert(rest@ =~= all.skip(done@.len() as int));
            }
            Yaml::Sequence(done)
        },
        other => other,
    }
}

fn rewrite_names(v: Yaml, m: &Vec<(String, String)>) -> (out: Yaml)
    ensures
        seq_replaced(v, out, m@),
{
    match v {
        Yaml::Sequence(xs) => {
            let ghost all = xs@;
            let mut rest = xs;
            let mut done: Vec<Yaml> = Vec::new();
            while rest.len() > 0
                invariant
                    done@.len() + rest@.len() == all.len(),
                    rest@ == all.skip(done@.len() as int),
                    forall|i: int| 0 <= i < done@.len() ==> #[trigger] replaced_value(all[i], done@[i], m@),
                decreases rest@.len(),
            {
                let item = rest.remove(0);
                assert(item == all[done@.len() as int]);
                let mut item = item;
                replace_compatible(&mut item, m);
                done.push(item);
                assert(rest@ =~= all.skip(done@.len() as int));
            }
            Yaml::Sequence(done)
        },
        other => other,
    }
}

fn rewrite_values(v: Yaml, m: &Vec<(String, String)>) -> (out: Yaml)
    ensures
        values_replaced(v, out, m@),
{
    match v {
        Yaml::Mapping(es) => {
            let ghost all = es@;
            let mut rest = es;
            let mut done: Vec<YamlEntry> = Vec::new();
            while rest.len() > 0
                invariant
                    done@.len() + rest@.len() == all.len(),
                    rest@ == all.skip(done@.len() as int),
                    forall|i: int| 0 <= i < done@.len() ==> (#[trigger] done@[i]).key == all[i].key && done@[i].key_debug == all[i].key_debug,
                    forall|i: int| 0 <= i < done@.len() ==> #[trigger] replaced_value(all[i].value, done@[i].value, m@),
                decreases rest@.len(),
            {
                let e = rest.remove(0);
                assert(e == all[done@.len() as int]);
                let YamlEntry { key, key_debug, value } = e;
                let mut value = value;
                replace_compatible(&mut value, m);
                done.push(YamlEntry { key, key_debug, value });
                assert(rest@ =~= all.skip(done@.len() as int));
            }
            Yaml::Mapping(done)
        },
        other => other,
    }
}

/// The literal field names of a layer.
fn layer_names(layer: u8) -> (out: Vec<&'static str>)
    requires
        layer < 4,
    ensures
        out@.map_values(|n: &str| n@) == layer_fields(layer as int),
{
    let v = if layer == 0 {
        vec!["inputs", "outputs", "agent", "model", "target", "all_targets"]
    } else if layer == 1 {
        vec!["from", "to"]
    } else if layer == 2 {
        vec!["initial", "allowed"]
    } else {
        vec!["root", "default", "by_type"]
    };
    assert(v@.map_values(|n: &str| n@) =~= layer_fields(layer as int));
    v
}

/// For each entry, which of `names` it is the field of.
fn fields_of(es: &Vec<YamlEntry>, names: &Vec<&str>) -> (out: Vec<Option<usize>>)
    ensures
        out@.len() == es@.len(),
        forall|j: int|
            0 <= j < es@.len() ==> match field_at(es@, j, names@.map_values(|n: &str| n@)) {
                Some(f) => #[trigger] out@[j] matches Some(g) && g == f,
                None => out@[j] is None,
            },
{
    let mut seen: Vec<bool> = Vec::new();
    let mut n: usize = 0;
    while n < names.len()
        invariant
            n <= names@.len(),
            seen@.len() == n,
            forall|f: int| 0 <= f < n ==> #[trigger] seen@[f] == false,
        decreases names.len() - n,
    {
        seen.push(false);
        n += 1;
    }
    let mut out: Vec<Option<usize>> = Vec::new();
    let mut i: usize = 0;
    proof {
        assert forall|f: int| 0 <= f < names@.len() implies #[trigger] seen@[f] == claimed_before(es@, names@[f]@, 0) by {
            lemma_first_key_char(es@, names@[f]@);
        }
    }
    while i < es.len()
        invariant
            i <= es@.len(),
            seen@.len() == names@.len(),
            out@.len() == i,
            forall|f: int| 0 <= f < names@.len() ==> #[trigger] seen@[f] == claimed_before(es@, names@[f]@, i as int),
            forall|j: int|
                0 <= j < i ==> match field_at(es@, j, names@.map_values(|n: &str| n@)) {
                    Some(f) => #[trigger] out@[j] matches Some(g) && g == f,
                    None => out@[j] is None,
                },
        decreases es.len() - i,
    {
        let f = field_of_entry(es, i, names, &mut seen);
        out.push(f);
        i += 1;
    }
    out
}

fn rewrite_field(layer: u8, f: usize, v: Yaml, c: &ResolvedCompatibility, ap: &Vec<(String, String)>) -> (out: Yaml)
    requires
        layer < 4,
    ensures
        field_value_ok(layer as int, f as int, v, out, *c, ap@),
{
    if layer == 0 {
        if f < 2 {
            rewrite_artifacts(v, ap)
        } else if f < 4 {
            let mut v = v;
            replace_compatible(&mut v, &c.settings);
            v
        } else {
            let mut v = v;
            replace_target_settings(&mut v, &c.settings);
            v
        }
    } else if layer == 1 {
        let mut v = v;
        replace_compatible(&mut v, &c.states);
        v
    } else if layer == 2 {
        if f == 0 {
            let mut v = v;
            replace_compatible(&mut v, &c.states);
            v
        } else {
            rewrite_names(v, &c.states)
        }
    } else {
        if f < 2 {
            let mut v = v;
            replace_compatible(&mut v, &c.profiles);
            v
        } else {
            rewrite_values(v, &c.profiles)
        }
    }
}

/// Rename the naming fields of one mapping of a layer.
fn rewrite_mapping(layer: u8, v: Yaml, c: &ResolvedCompatibility, ap: &Vec<(String, String)>) -> (out: Yaml)
    requires
        layer < 4,
    ensures
        mapping_rel(layer as int, v, out, *c, ap@),
{
    match v {
        Yaml::Mapping(es) => {
            let names = layer_names(layer);
            let fields = fields_of(&es, &names);
            let ghost old_es = es@;
            assert(old_es.len() == es.len());
            let mut rest = es;
            let mut done: Vec<YamlEntry> = Vec::new();
            let mut k: usize = 0;
            while rest.len() > 0
                invariant
                    layer < 4,
                    old_es.len() <= usize::MAX,
                    k == done@.len(),
                    k + rest@.len() == old_es.len(),
                    rest@ == old_es.skip(k as int),
                    fields@.len() == old_es.len(),
                    forall|j: int|
                        0 <= j < old_es.len() ==> match field_at(old_es, j, layer_fields(layer as int)) {
                            Some(f) => #[trigger] fields@[j] matches Some(g) && g == f,
                            None => fields@[j] is None,
                        },
                    forall|j: int| 0 <= j < k ==> (#[trigger] done@[j]).key == old_es[j].key && done@[j].key_debug == old_es[j].key_debug,
                    forall|j: int| 0 <= j < k ==> #[trigger] field_ok(layer as int, old_es, done@, j, *c, ap@),
                decreases rest@.len(),
            {
                let e = rest.remove(0);
                assert(e == old_es[k as int]);
                let YamlEntry { key, key_debug, value } = e;
                let new_value = match fields[k] {
                    Some(f) => rewrite_field(layer, f, value, c, ap),
                    None => value,
                };
                let ghost before = done@;
                done.push(YamlEntry { key, key_debug, value: new_value });
                proof {
                    assert forall|j: int| 0 <= j < k + 1 implies #[trigger] field_ok(layer as int, old_es, done@, j, *c, ap@) by {
                        if j < k {
                            assert(done@[j] == before[j]);
                            assert(field_ok(layer as int, old_es, before, j, *c, ap@));
                        } else {
                            assert(j == k);
                            assert(done@[j].value == new_value);
                        }
                    }
                }
                k += 1;
                assert(rest@ =~= old_es.skip(k as int));
            }
            Yaml::Mapping(done)
        },
        other => other,
    }
}

// ---------------------------------------------------------------------------
// Renamed registries and the whole machine
// ---------------------------------------------------------------------------

/// Every value of a mapping rewritten as a layer's mapping.
pub open spec fn values_rel(layer: int, es: Seq<YamlEntry>, mid: Seq<YamlEntry>, c: ResolvedCompatibility, ap: Seq<(String, String)>) -> bool {
    &&& same_shape(es, mid)
    &&& forall|i: int| 0 <= i < es.len() ==> #[trigger] mapping_rel(layer, es[i].value, mid[i].value, c, ap)
}

/// A mapping with its keys renamed through `m`, as `rename_yaml_keys`
/// renames them.
pub open spec fn renamed_from(mid: Seq<YamlEntry>, n: Yaml, m: Seq<(String, String)>) -> bool {
    &&& n is Mapping
    &&& n->Mapping_0@.len() == rename_slots(mid, m, mid.len()).len()
    &&& forall|i: int|
        0 <= i < n->Mapping_0@.len() ==> entry_matches_slot(
            #[trigger] n->Mapping_0@[i],
            mid,
            rename_slots(mid, m, mid.len())[i],
        )
}

/// A registry (`states` or `profiles`): each definition rewritten as its
/// layer's mapping, then the registry's keys renamed through `m`.
pub open spec fn registry_rel(layer: int, o: Yaml, n: Yaml, m: Seq<(String, String)>, c: ResolvedCompatibility, ap: Seq<(String, String)>) -> bool {
    match o {
        Yaml::Mapping(es) => exists|mid: Seq<YamlEntry>|
            #[trigger] values_rel(layer, es@, mid, c, ap) && renamed_from(mid, n, m),
        _ => n == o,
    }
}

/// A list of transitions, each with its states renamed.
pub open spec fn transitions_rel(o: Yaml, n: Yaml, c: ResolvedCompatibility, ap: Seq<(String, String)>) -> bool {
    match o {
        Yaml::Sequence(xs) => n matches Yaml::Sequence(ys) && ys@.len() == xs@.len() && (forall|i: int|
            0 <= i < xs@.len() ==> #[trigger] mapping_rel(1, xs@[i], ys@[i], c, ap)),
        _ => n == o,
    }
}

/// The top-level fields of a machine that compatibility rewrites.
pub open spec fn machine_fields() -> Seq<Seq<char>> {
    seq!["states"@, "transitions"@, "profiles"@, "node_policy"@]
}

pub open spec fn machine_field_ok(f: int, o: Yaml, n: Yaml, c: ResolvedCompatibility, ap: Seq<(String, String)>) -> bool {
    if f == 0 {
        registry_rel(0, o, n, c.states@, c, ap)
    } else if f == 1 {
        transitions_rel(o, n, c, ap)
    } else if f == 2 {
        registry_rel(2, o, n, c.profiles@, c, ap)
    } else {
        mapping_rel(3, o, n, c, ap)
    }
}

pub open spec fn machine_entry_ok(es: Seq<YamlEntry>, ns: Seq<YamlEntry>, i: int, c: ResolvedCompatibility, ap: Seq<(String, String)>) -> bool {
    match field_at(es, i, machine_fields()) {
        Some(f) => machine_field_ok(f, es[i].value, ns[i].value, c, ap),
        None => ns[i].value == es[i].value,
    }
}

/// The machine with its states, transitions, profiles and node policy
/// renamed; artifact paths renamed through `ap`.
pub open spec fn machine_rel(o: Yaml, n: Yaml, c: ResolvedCompatibility, ap: Seq<(String, String)>) -> bool {
    match o {
        Yaml::Mapping(es) => n matches Yaml::Mapping(ns) && same_shape(es@, ns@) && (forall|i: int|
            0 <= i < es@.len() ==> #[trigger] machine_entry_ok(es@, ns@, i, c, ap)),
        _ => n == o,
    }
}

fn rewrite_registry(layer: u8, v: Yaml, m: &Vec<(String, String)>, c: &ResolvedCompatibility, ap: &Vec<(String, String)>) -> (out: Yaml)
    requires
        layer < 4,
    ensures
        registry_rel(layer as int, v, out, m@, *c, ap@),
{
    match v {
        Yaml::Mapping(es) => {
            let ghost all = es@;
            let mut rest = es;
            let mut done: Vec<YamlEntry> = Vec::new();
            while rest.len() > 0
                invariant
                    layer < 4,
                    done@.len() + rest@.len() == all.len(),
                    rest@ == all.skip(done@.len() as int),
                    forall|i: int| 0 <= i < done@.len() ==> (#[trigger] done@[i]).key == all[i].key && done@[i].key_debug == all[i].key_debug,
                    forall|i: int| 0 <= i < done@.len() ==> #[trigger] mapping_rel(layer as int, all[i].value, done@[i].value, *c, ap@),
                decreases rest@.len(),
            {
                let e = rest.remove(0);
                assert(e == all[done@.len() as int]);
                let YamlEntry { key, key_debug, value } = e;
                let value = rewrite_mapping(layer, value, c, ap);
                done.push(YamlEntry { key, key_debug, value });
                assert(rest@ =~= all.skip(done@.len() as int));
            }
            let ghost mid = done@;
            assert(values_rel(layer as int, all, mid, *c, ap@));
            rename_yaml_keys(&mut done, m);
            let out = Yaml::Mapping(done);
            assert(renamed_from(mid, out, m@));
            out
        },
        other => other,
    }
}

fn rewrite_transitions(v: Yaml, c: &ResolvedCompatibility, ap: &Vec<(String, String)>) -> (out: Yaml)
    ensures
        transitions_rel(v, out, *c, ap@),
{
    match v {
        Yaml::Sequence(xs) => {
            let ghost all = xs@;
            let mut rest = xs;
            let mut done: Vec<Yaml> = Vec::new();
            while rest.len() > 0
                invariant
                    done@.len() + rest@.len() == all.len(),
                    rest@ == all.skip(done@.len() as int),
                    forall|i: int| 0 <= i < done@.len() ==> #[trigger] mapping_rel(1, all[i], done@[i], *c, ap@),
                decreases rest@.len(),
            {
                let item = rest.remove(0);
                assert(item == all[done@.len() as int]);
                done.push(rewrite_mapping(1, item, c, ap));
                assert(rest@ =~= all.skip(done@.len() as int));
            }
            Yaml::Sequence(done)
        },
        other => other,
    }
}

// ---------------------------------------------------------------------------
// Artifact paths
// ---------------------------------------------------------------------------

/// A string field of a mapping.
pub open spec fn string_field(v: Yaml, k: Seq<char>) -> Option<Seq<char>> {
    match yaml_get(v, k) {
        Some(Yaml::Str(s)) => Some(s@),
        _ => None,
    }
}

/// The path of the first artifact named `name` in a list of artifact
/// declarations, when it has a string path.
pub open spec fn named_artifact_path(items: Seq<Yaml>, name: Seq<char>) -> Option<Seq<char>>
    decreases items.len(),
{
    if items.len() == 0 {
        None
    } else if string_field(items[0], "name"@) == Some(name) {
        string_field(items[0], "path"@)
    } else {
        named_artifact_path(items.drop_first(), name)
    }
}

/// Where a state declares its state-file artifacts: `outputs` when it has
/// outputs, `inputs` otherwise.
pub open spec fn artifact_direction(states: Yaml, state: Seq<char>) -> Seq<char> {
    match yaml_get(states, state) {
        Some(d) => if yaml_get(d, "outputs"@) is Some {
            "outputs"@
        } else {
            "inputs"@
        },
        None => "inputs"@,
    }
}

/// The path of artifact `name` that `state` declares under `direction`.
pub open spec fn artifact_path_spec(states: Yaml, state: Seq<char>, direction: Seq<char>, name: Seq<char>) -> Option<Seq<char>> {
    match yaml_get(states, state) {
        Some(d) => match yaml_get(d, direction) {
            Some(Yaml::Sequence(items)) => named_artifact_path(items@, name),
            _ => None,
        },
        None => None,
    }
}

/// The refusal when a compatibility artifact has no declared path.
pub open spec fn missing_artifact_message(state: Seq<char>, name: Seq<char>) -> Seq<char> {
    "compatibility artifact '"@ + name + "' has no declared path in state '"@ + state + "'"@
}

/// The refusal when the machine has no `states` mapping.
pub open spec fn missing_states_message() -> Seq<char> {
    "the composed state machine has no 'states' mapping"@
}

/// Each compatibility artifact's path and stable name, the latest first so
/// that a later artifact with the same path decides, as map inserts do.
pub open spec fn artifact_pairs(states: Yaml, arts: Seq<(String, ArtifactEndpoint)>, n: nat) -> Result<
    Seq<(Seq<char>, Seq<char>)>,
    Seq<char>,
>
    decreases n,
{
    if n == 0 || n > arts.len() {
        Ok(seq![])
    } else {
        match artifact_pairs(states, arts, (n - 1) as nat) {
            Err(e) => Err(e),
            Ok(prev) => {
                let (stable, ep) = arts[n - 1];
                let dir = artifact_direction(states, ep.state@);
                match artifact_path_spec(states, ep.state@, dir, ep.name@) {
                    Some(p) => Ok(seq![(p, stable@)] + prev),
                    None => Err(missing_artifact_message(ep.state@, ep.name@)),
                }
            },
        }
    }
}

/// The views of a replacement map.
pub open spec fn pair_views(ap: Seq<(String, String)>) -> Seq<(Seq<char>, Seq<char>)> {
    ap.map_values(|p: (String, String)| (p.0@, p.1@))
}

fn string_field_of<'a>(v: &'a Yaml, k: &str) -> (out: Option<&'a String>)
    ensures
        match string_field(*v, k@) {
            Some(s) => out matches Some(o) && o@ == s,
            None => out is None,
        },
{
    match get(v, k) {
        Some(Yaml::Str(s)) => Some(s),
        _ => None,
    }
}

fn artifact_path_of(states: &Yaml, state: &str, direction: &str, name: &str) -> (out: Option<String>)
    ensures
        match artifact_path_spec(*states, state@, direction@, name@) {
            Some(p) => out matches Some(o) && o@ == p,
            None => out is None,
        },
{
    let Some(d) = get(states, state) else {
        return None;
    };
    let Some(Yaml::Sequence(items)) = get(d, direction) else {
        return None;
    };
    let mut i: usize = 0;
    assert(items@.skip(0) =~= items@);
    while i < items.len()
        invariant
            i <= items@.len(),
            artifact_path_spec(*states, state@, direction@, name@) == named_artifact_path(items@, name@),
            named_artifact_path(items@, name@) == named_artifact_path(items@.skip(i as int), name@),
        decreases items.len() - i,
    {
        assert(items@.skip(i as int)[0] == items@[i as int]);
        assert(items@.skip(i as int).drop_first() =~= items@.skip(i + 1));
        let matched = match string_field_of(&items[i], "name") {
            Some(n) => str_eq(n.as_str(), name),
            None => false,
        };
        if matched {
            return match string_field_of(&items[i], "path") {
                Some(p) => Some(p.clone()),
                None => None,
            };
        }
        i += 1;
    }
    None
}

fn artifact_paths(states: &Yaml, arts: &Vec<(String, ArtifactEndpoint)>) -> (out: Result<Vec<(String, String)>, Report>)
    ensures
        match artifact_pairs(*states, arts@, arts@.len()) {
            Ok(pairs) => out matches Ok(ap) && pair_views(ap@) == pairs,
            Err(e) => out matches Err(r) && r.message@ == e,
        },
{
    let mut ap: Vec<(String, String)> = Vec::new();
    let mut n: usize = 0;
    assert(pair_views(ap@) =~= Seq::<(Seq<char>, Seq<char>)>::empty());
    while n < arts.len()
        invariant
            n <= arts@.len(),
            artifact_pairs(*states, arts@, n as nat) == Ok::<_, Seq<char>>(pair_views(ap@)),
        decreases arts.len() - n,
    {
        let (stable, ep) = (&arts[n].0, &arts[n].1);
        let has_outputs = match get(states, ep.state.as_str()) {
            Some(d) => get(d, "outputs").is_some(),
            None => false,
        };
        let direction = if has_outputs {
            "outputs"
        } else {
            "inputs"
        };
        assert(direction@ == artifact_direction(*states, ep.state@));
        match artifact_path_of(states, ep.state.as_str(), direction, ep.name.as_str()) {
            Some(p) => {
                let ghost before = ap@;
                ap.insert(0, (p, stable.clone()));
                assert(pair_views(ap@) =~= seq![(p@, stable@)] + pair_views(before));
            },
            None => {
                let mut message = String::new();
                push_str(&mut message, "compatibility artifact '");
                push_str(&mut message, ep.name.as_str());
                push_str(&mut message, "' has no declared path in state '");
                push_str(&mut message, ep.state.as_str());
                push_str(&mut message, "'");
                proof {
                    lemma_artifact_pairs_err(*states, arts@, (n + 1) as nat, arts@.len());
                }
                return Err(Report::plain(message));
            },
        }
        n += 1;
    }
    Ok(ap)
}

/// A refused artifact stays refused whatever follows it.
proof fn lemma_artifact_pairs_err(states: Yaml, arts: Seq<(String, ArtifactEndpoint)>, n: nat, m: nat)
    requires
        n <= m <= arts.len(),
        artifact_pairs(states, arts, n) is Err,
    ensures
        artifact_pairs(states, arts, m) == artifact_pairs(states, arts, n),
    decreases m - n,
{
    if m > n {
        lemma_artifact_pairs_err(states, arts, n, (m - 1) as nat);
    }
}

fn machine_names() -> (out: Vec<&'static str>)
    ensures
        out@.map_values(|n: &str| n@) == machine_fields(),
{
    let v = vec!["states", "transitions", "profiles", "node_policy"];
    assert(v@.map_values(|n: &str| n@) =~= machine_fields());
    v
}

fn rewrite_machine(v: Yaml, c: &ResolvedCompatibility, ap: &Vec<(String, String)>) -> (out: Yaml)
    ensures
        machine_rel(v, out, *c, ap@),
{
    match v {
        Yaml::Mapping(es) => {
            let names = machine_names();
            let fields = fields_of(&es, &names);
            let ghost old_es = es@;
            assert(old_es.len() == es.len());
            let mut rest = es;
            let mut done: Vec<YamlEntry> = Vec::new();
            let mut k: usize = 0;
            while rest.len() > 0
                invariant
                    old_es.len() <= usize::MAX,
                    k == done@.len(),
                    k + rest@.len() == old_es.len(),
                    rest@ == old_es.skip(k as int),
                    fields@.len() == old_es.len(),
                    forall|j: int|
                        0 <= j < old_es.len() ==> match field_at(old_es, j, machine_fields()) {
                            Some(f) => #[trigger] fields@[j] matches Some(g) && g == f,
                            None => fields@[j] is None,
                        },
                    forall|j: int| 0 <= j < k ==> (#[trigger] done@[j]).key == old_es[j].key && done@[j].key_debug == old_es[j].key_debug,
                    forall|j: int| 0 <= j < k ==> #[trigger] machine_entry_ok(old_es, done@, j, *c, ap@),
                decreases rest@.len(),
            {
                let e = rest.remove(0);
                assert(e == old_es[k as int]);
                let YamlEntry { key, key_debug, value } = e;
                let new_value = match fields[k] {
                    Some(0) => rewrite_registry(0, value, &c.states, c, ap),
                    Some(1) => rewrite_transitions(value, c, ap),
                    Some(2) => rewrite_registry(2, value, &c.profiles, c, ap),
                    Some(_) => rewrite_mapping(3, value, c, ap),
                    None => value,
                };
                let ghost before = done@;
                done.push(YamlEntry { key, key_debug, value: new_value });
                proof {
                    assert forall|j: int| 0 <= j < k + 1 implies #[trigger] machine_entry_ok(old_es, done@, j, *c, ap@) by {
                        if j < k {
                            assert(done@[j] == before[j]);
                            assert(machine_entry_ok(old_es, before, j, *c, ap@));
                        } else {
                            assert(done@[j].value == new_value);
                        }
                    }
                }
                k += 1;
                assert(rest@ =~= old_es.skip(k as int));
            }
            Yaml::Mapping(done)
        },
        other => other,
    }
}

/// Rename a composed machine to the stable names its root promised: state
/// definitions (their artifact paths, agent, model and targets) and state
/// names, transitions, profiles and their names, and the node policy. The
/// artifact paths come from where each compatibility artifact's state
/// declares it; a machine without a `states` mapping, or an artifact
/// without a declared path, is refused and left as it was.
pub fn apply_compatibility_machine(machine: &mut Yaml, compatibility: &ResolvedCompatibility) -> (out: Result<(), Report>)
    ensures
        match yaml_get(*old(machine), "states"@) {
            Some(Yaml::Mapping(ses)) => match artifact_pairs(Yaml::Mapping(ses), compatibility.artifacts@, compatibility.artifacts@.len()) {
                Ok(pairs) => out is Ok && exists|ap: Seq<(String, String)>|
                    #[trigger] pair_views(ap) == pairs && machine_rel(*old(machine), *final(machine), *compatibility, ap),
                Err(e) => out matches Err(r) && r.message@ == e && *final(machine) == *old(machine),
            },
            _ => out matches Err(r) && r.message@ == missing_states_message() && *final(machine) == *old(machine),
        },
{
    let ap = {
        let states = match get(machine, "states") {
            Some(s) => s,
            None => {
                let mut message = String::new();
                push_str(&mut message, "the composed state machine has no 'states' mapping");
                return Err(Report::plain(message));
            },
        };
        let is_mapping = match states {
            Yaml::Mapping(_) => true,
            _ => false,
        };
        if !is_mapping {
            let mut message = String::new();
            push_str(&mut message, "the composed state machine has no 'states' mapping");
            return Err(Report::plain(message));
        }
        match artifact_paths(states, &compatibility.artifacts) {
            Ok(ap) => ap,
            Err(e) => return Err(e),
        }
    };
    let mut taken = Yaml::Null;
    std::mem::swap(&mut taken, machine);
    *machine = rewrite_machine(taken, compatibility, &ap);
    Ok(())
}

} // verus!
