//! YAML values as the composition code reads them, and the checks on
//! rendered `select:` declaration groups.
//!
//! A mapping entry carries, beside its key, the key's debug spelling as
//! `serde_yaml` prints it, so that a refusal can quote the key exactly.
use vstd::prelude::*;
use crate::report::Report;
use crate::text::{join, join_strings, push_str, str_eq};

verus! {

/// `format!("{:?}", s)` for a string: quoted, with Rust's debug escapes.
pub uninterp spec fn debug_quoted(s: Seq<char>) -> Seq<char>;

/// The debug spelling of a string (`<str as Debug>::fmt`).
#[verifier::external_body]
pub(crate) fn debug_str(s: &str) -> (out: String)
    ensures
        out@ == debug_quoted(s@),
{
    format!("{:?}", s)
}

/// A YAML value.
#[derive(Debug)]
pub enum Yaml {
    Null,
    Bool(bool),
    /// A number, as it is displayed.
    Number(String),
    Str(String),
    Sequence(Vec<Yaml>),
    Mapping(Vec<YamlEntry>),
    /// A tagged value: the tag and the value.
    Tagged(String, Box<Yaml>),
}

/// One entry of a YAML mapping.
#[derive(Debug)]
pub struct YamlEntry {
    pub key: Yaml,
    /// How `serde_yaml` debug-prints the key, e.g. `String("ports")`.
    pub key_debug: String,
    pub value: Yaml,
}

/// The debug spelling `serde_yaml` gives a string key.
pub open spec fn string_key_debug(s: Seq<char>) -> Seq<char> {
    "String("@ + debug_quoted(s) + ")"@
}

/// Whether `v` is the string `s`.
pub open spec fn is_string(v: Yaml, s: Seq<char>) -> bool {
    match v {
        Yaml::Str(x) => x@ == s,
        _ => false,
    }
}

/// The value of the first entry keyed by the string `key` (`Value::get`).
pub open spec fn entry_get(entries: Seq<YamlEntry>, key: Seq<char>) -> Option<Yaml>
    decreases entries.len(),
{
    if entries.len() == 0 {
        None
    } else if is_string(entries[0].key, key) {
        Some(entries[0].value)
    } else {
        entry_get(entries.drop_first(), key)
    }
}

/// `Value::get` with a string index: a mapping's value under that key.
pub open spec fn yaml_get(v: Yaml, key: Seq<char>) -> Option<Yaml> {
    match v {
        Yaml::Mapping(es) => entry_get(es@, key),
        _ => None,
    }
}

/// `Value::get` with a string index.
pub fn get<'a>(v: &'a Yaml, key: &str) -> (out: Option<&'a Yaml>)
    ensures
        match out {
            Some(x) => yaml_get(*v, key@) == Some(*x),
            None => yaml_get(*v, key@) is None,
        },
{
    match v {
        Yaml::Mapping(es) => {
            let mut i: usize = 0;
            assert(es@.skip(0) =~= es@);
            while i < es.len()
                invariant
                    i <= es.len(),
                    *v == Yaml::Mapping(*es),
                    entry_get(es@, key@) == entry_get(es@.skip(i as int), key@),
                decreases es.len() - i,
            {
                assert(es@.skip(i as int)[0] == es@[i as int]);
                assert(es@.skip(i as int).drop_first() =~= es@.skip(i + 1));
                let hit = match &es[i].key {
                    Yaml::Str(k) => str_eq(k.as_str(), key),
                    _ => false,
                };
                if hit {
                    return Some(&es[i].value);
                }
                i += 1;
            }
            None
        },
        _ => None,
    }
}

/// The names of a list of field names.
pub open spec fn names(allowed: Seq<&str>) -> Seq<Seq<char>> {
    allowed.map_values(|a: &str| a@)
}

/// Whether a key is one of the allowed field names.
pub open spec fn key_allowed(key: Yaml, allowed: Seq<Seq<char>>) -> bool {
    exists|i: int| 0 <= i < allowed.len() && is_string(key, #[trigger] allowed[i])
}

/// The index of the first entry whose key is not an allowed field.
pub open spec fn first_unsupported(entries: Seq<YamlEntry>, allowed: Seq<Seq<char>>) -> Option<int>
    decreases entries.len(),
{
    if entries.len() == 0 {
        None
    } else if !key_allowed(entries[0].key, allowed) {
        Some(0)
    } else {
        match first_unsupported(entries.drop_first(), allowed) {
            Some(i) => Some(i + 1),
            None => None,
        }
    }
}

/// The allowed names, as a refusal lists them.
pub open spec fn allowed_list(allowed: Seq<Seq<char>>) -> Seq<char> {
    join(allowed, ", "@)
}

/// The refusal of a selected declaration group, if any: not a mapping, or a
/// mapping with a field outside `allowed` (the first one is named).
pub open spec fn selected_keys_error(value: Yaml, group: Seq<char>, allowed: Seq<Seq<char>>) -> Option<
    Seq<char>,
> {
    match value {
        Yaml::Mapping(es) => match first_unsupported(es@, allowed) {
            Some(i) => Some(
                "unsupported field "@ + es@[i].key_debug@ + " in "@ + group + "; allowed fields: "@
                    + allowed_list(allowed),
            ),
            None => None,
        },
        _ => Some(group + " must select a mapping, not null or a scalar"@),
    }
}

fn key_is_allowed(key: &Yaml, allowed: &Vec<&str>) -> (r: bool)
    ensures
        r == key_allowed(*key, names(allowed@)),
{
    match key {
        Yaml::Str(k) => {
            let mut i: usize = 0;
            while i < allowed.len()
                invariant
                    i <= allowed.len(),
                    *key == Yaml::Str(*k),
                    forall|j: int| 0 <= j < i ==> !is_string(*key, #[trigger] names(allowed@)[j]),
                decreases allowed.len() - i,
            {
                assert(names(allowed@)[i as int] == allowed@[i as int]@);
                if str_eq(k.as_str(), allowed[i]) {
                    assert(is_string(*key, names(allowed@)[i as int]));
                    return true;
                }
                i += 1;
            }
            false
        },
        _ => false,
    }
}

/// Accept only a mapping whose keys are all among `allowed`.
pub fn selected_keys(value: &Yaml, group: &str, allowed: &Vec<&str>) -> (out: Result<(), Report>)
    ensures
        out is Ok <==> selected_keys_error(*value, group@, names(allowed@)) is None,
        match out {
            Err(e) => selected_keys_error(*value, group@, names(allowed@)) == Some(e.message@),
            Ok(()) => true,
        },
{
    match value {
        Yaml::Mapping(es) => {
            let mut i: usize = 0;
            assert(es@.skip(0) =~= es@);
            while i < es.len()
                invariant
                    i <= es.len(),
                    *value == Yaml::Mapping(*es),
                    first_unsupported(es@, names(allowed@)) == match first_unsupported(
                        es@.skip(i as int),
                        names(allowed@),
                    ) {
                        Some(j) => Some(j + i),
                        None => None,
                    },
                decreases es.len() - i,
            {
                assert(es@.skip(i as int)[0] == es@[i as int]);
                assert(es@.skip(i as int).drop_first() =~= es@.skip(i + 1));
                if !key_is_allowed(&es[i].key, allowed) {
                    assert(first_unsupported(es@.skip(i as int), names(allowed@)) == Some(0int));
                    assert(first_unsupported(es@, names(allowed@)) == Some(i as int));
                    let mut message = String::new();
                    push_str(&mut message, "unsupported field ");
                    push_str(&mut message, es[i].key_debug.as_str());
                    push_str(&mut message, " in ");
                    push_str(&mut message, group);
                    push_str(&mut message, "; allowed fields: ");
                    let list = join_allowed(allowed);
                    push_str(&mut message, list.as_str());
                    let mut help = String::new();
                    push_str(&mut help, "remove the unsupported field or use one of the listed fields");
                    return Err(Report::with_help(message, help));
                }
                i += 1;
            }
            assert(es@.skip(es.len() as int) =~= Seq::<YamlEntry>::empty());
            Ok(())
        },
        _ => {
            let mut message = String::new();
            push_str(&mut message, group);
            push_str(&mut message, " must select a mapping, not null or a scalar");
            let mut help = String::new();
            push_str(&mut help, "render a mapping for the selected declaration group");
            Err(Report::with_help(message, help))
        },
    }
}

fn join_allowed(allowed: &Vec<&str>) -> (out: String)
    ensures
        out@ == allowed_list(names(allowed@)),
{
    let mut parts: Vec<String> = Vec::new();
    let mut i: usize = 0;
    while i < allowed.len()
        invariant
            i <= allowed.len(),
            parts@.map_values(|p: String| p@) == names(allowed@).take(i as int),
        decreases allowed.len() - i,
    {
        let mut s = String::new();
        push_str(&mut s, allowed[i]);
        assert(s@ =~= allowed@[i as int]@);
        assert(names(allowed@)[i as int] == allowed@[i as int]@);
        let ghost before = parts@;
        parts.push(s);
        assert(parts@.map_values(|p: String| p@) =~= before.map_values(|p: String| p@).push(
            allowed@[i as int]@,
        ));
        assert(names(allowed@).take(i + 1) =~= names(allowed@).take(i as int).push(
            allowed@[i as int]@,
        ));
        i += 1;
        assert(parts@.map_values(|p: String| p@) =~= names(allowed@).take(i as int));
    }
    assert(names(allowed@).take(allowed.len() as int) =~= names(allowed@));
    join_strings(&parts, ", ")
}

/// The fields an exposure target may declare.
pub open spec fn target_fields() -> Seq<Seq<char>> {
    seq!["local"@, "mount"@, "name"@]
}

/// The first refusal among the targets of an exposure map.
pub open spec fn exposure_entries_error(entries: Seq<YamlEntry>, group: Seq<char>) -> Option<Seq<char>>
    decreases entries.len(),
{
    if entries.len() == 0 {
        None
    } else {
        match selected_keys_error(
            entries[0].value,
            group + "."@ + entries[0].key_debug@,
            target_fields(),
        ) {
            Some(e) => Some(e),
            None => exposure_entries_error(entries.drop_first(), group),
        }
    }
}

/// The refusal of an exposure map, if any: not a mapping, or an entry whose
/// target declares fields other than `local`, `mount` and `name`.
pub open spec fn exposure_map_error(value: Yaml, group: Seq<char>) -> Option<Seq<char>> {
    match value {
        Yaml::Mapping(es) => exposure_entries_error(es@, group),
        _ => Some(group + " must be a mapping"@),
    }
}

fn target_field_list() -> (v: Vec<&'static str>)
    ensures
        names(v@) == target_fields(),
{
    let mut v: Vec<&'static str> = Vec::new();
    v.push("local");
    v.push("mount");
    v.push("name");
    assert(names(v@) =~= target_fields());
    v
}

/// Each public name of an exposure group maps to a `local`/`mount`/`name`
/// target.
pub fn validate_selected_exposure_map(value: &Yaml, group: &str) -> (out: Result<(), Report>)
    ensures
        out is Ok <==> exposure_map_error(*value, group@) is None,
        match out {
            Err(e) => exposure_map_error(*value, group@) == Some(e.message@),
            Ok(()) => true,
        },
{
    match value {
        Yaml::Mapping(es) => {
            let fields = target_field_list();
            let mut i: usize = 0;
            assert(es@.skip(0) =~= es@);
            while i < es.len()
                invariant
                    i <= es.len(),
                    *value == Yaml::Mapping(*es),
                    names(fields@) == target_fields(),
                    exposure_entries_error(es@, group@) == exposure_entries_error(
                        es@.skip(i as int),
                        group@,
                    ),
                decreases es.len() - i,
            {
                assert(es@.skip(i as int)[0] == es@[i as int]);
                assert(es@.skip(i as int).drop_first() =~= es@.skip(i + 1));
                let mut label = String::new();
                push_str(&mut label, group);
                push_str(&mut label, ".");
                push_str(&mut label, es[i].key_debug.as_str());
                assert(label@ =~= group@ + "."@ + es@[i as int].key_debug@);
                match selected_keys(&es[i].value, label.as_str(), &fields) {
                    Ok(()) => {},
                    Err(e) => {
                        return Err(e);
                    },
                }
                i += 1;
            }
            assert(es@.skip(es.len() as int) =~= Seq::<YamlEntry>::empty());
            Ok(())
        },
        _ => {
            let mut message = String::new();
            push_str(&mut message, group);
            push_str(&mut message, " must be a mapping");
            let mut help = String::new();
            push_str(&mut help, "render exposure declarations as a mapping");
            Err(Report::with_help(message, help))
        },
    }
}

/// The exposure groups, the registries of the settings group, and the
/// fields each may declare.
pub open spec fn expose_fields() -> Seq<Seq<char>> {
    seq!["states"@, "tasks"@, "settings"@]
}

pub open spec fn registry_fields() -> Seq<Seq<char>> {
    seq!["agents"@, "models"@, "mcp_servers"@, "skills"@]
}

/// `a` when it refuses, otherwise `b`.
pub open spec fn first_error(a: Option<Seq<char>>, b: Option<Seq<char>>) -> Option<Seq<char>> {
    if a is Some {
        a
    } else {
        b
    }
}

/// The refusal of an optional exposure map under `key` of `parent`.
pub open spec fn optional_map_error(parent: Yaml, key: Seq<char>, group: Seq<char>) -> Option<
    Seq<char>,
> {
    match yaml_get(parent, key) {
        Some(d) => exposure_map_error(d, group),
        None => None,
    }
}

/// The refusal of the settings exposure group.
pub open spec fn settings_exposure_error(settings: Yaml) -> Option<Seq<char>> {
    first_error(
        selected_keys_error(settings, "expose.settings"@, registry_fields()),
        first_error(
            optional_map_error(settings, "agents"@, "expose.settings.agents"@),
            first_error(
                optional_map_error(settings, "models"@, "expose.settings.models"@),
                first_error(
                    optional_map_error(settings, "mcp_servers"@, "expose.settings.mcp_servers"@),
                    optional_map_error(settings, "skills"@, "expose.settings.skills"@),
                ),
            ),
        ),
    )
}

/// The refusal of a selected `expose` group: the closed group's fields, the
/// state and task maps, then the settings registries, first refusal first.
pub open spec fn exposure_error(value: Yaml) -> Option<Seq<char>> {
    first_error(
        selected_keys_error(value, "expose"@, expose_fields()),
        first_error(
            optional_map_error(value, "states"@, "expose.states"@),
            first_error(
                optional_map_error(value, "tasks"@, "expose.tasks"@),
                match yaml_get(value, "settings"@) {
                    Some(s) => settings_exposure_error(s),
                    None => None,
                },
            ),
        ),
    )
}

fn optional_map(parent: &Yaml, key: &str, group: &str) -> (out: Result<(), Report>)
    ensures
        out is Ok <==> optional_map_error(*parent, key@, group@) is None,
        match out {
            Err(e) => optional_map_error(*parent, key@, group@) == Some(e.message@),
            Ok(()) => true,
        },
{
    match get(parent, key) {
        Some(d) => validate_selected_exposure_map(d, group),
        None => Ok(()),
    }
}

fn expose_field_list() -> (v: Vec<&'static str>)
    ensures
        names(v@) == expose_fields(),
{
    let mut v: Vec<&'static str> = Vec::new();
    v.push("states");
    v.push("tasks");
    v.push("settings");
    assert(names(v@) =~= expose_fields());
    v
}

fn registry_field_list() -> (v: Vec<&'static str>)
    ensures
        names(v@) == registry_fields(),
{
    let mut v: Vec<&'static str> = Vec::new();
    v.push("agents");
    v.push("models");
    v.push("mcp_servers");
    v.push("skills");
    assert(names(v@) =~= registry_fields());
    v
}

/// Selection renders the whole closed exposure group and receives the same
/// field validation as a static declaration.
pub fn validate_selected_exposure(value: &Yaml) -> (out: Result<(), Report>)
    ensures
        out is Ok <==> exposure_error(*value) is None,
        match out {
            Err(e) => exposure_error(*value) == Some(e.message@),
            Ok(()) => true,
        },
{
    selected_keys(value, "expose", &expose_field_list())?;
    optional_map(value, "states", "expose.states")?;
    optional_map(value, "tasks", "expose.tasks")?;
    if let Some(settings) = get(value, "settings") {
        selected_keys(settings, "expose.settings", &registry_field_list())?;
        optional_map(settings, "agents", "expose.settings.agents")?;
        optional_map(settings, "models", "expose.settings.models")?;
        optional_map(settings, "mcp_servers", "expose.settings.mcp_servers")?;
        optional_map(settings, "skills", "expose.settings.skills")?;
    }
    Ok(())
}

} // verus!
