use vstd::prelude::*;
use crate::yaml::{Path, PathEntry, path_from_str, segments, split_path, views};
use crate::models::EnvVar;

verus! {

broadcast use vstd::string::group_string_axioms;

/// A YAML value. A number is held as the text that YAML writes for it; a
/// mapping as its entries in order, with no key twice.
#[derive(Debug)]
pub enum YamlValue {
    Null,
    Bool(bool),
    Number(String),
    Text(String),
    Sequence(Vec<YamlValue>),
    Mapping(Vec<(YamlValue, YamlValue)>),
    Tagged(String, Box<YamlValue>),
}

/// A YAML value as plain sequences.
pub enum YamlModel {
    Null,
    Bool(bool),
    Number(Seq<char>),
    Text(Seq<char>),
    Sequence(Seq<YamlModel>),
    Mapping(Seq<(YamlModel, YamlModel)>),
    Tagged(Seq<char>, Box<YamlModel>),
}

pub open spec fn model(v: YamlValue) -> YamlModel
    decreases v,
{
    match v {
        YamlValue::Null => YamlModel::Null,
        YamlValue::Bool(b) => YamlModel::Bool(b),
        YamlValue::Number(n) => YamlModel::Number(n@),
        YamlValue::Text(t) => YamlModel::Text(t@),
        YamlValue::Sequence(items) => YamlModel::Sequence(
            Seq::new(
                items@.len(),
                |i: int|
                    if 0 <= i < items@.len() {
                        model(items@[i])
                    } else {
                        YamlModel::Null
                    },
            ),
        ),
        YamlValue::Mapping(entries) => YamlModel::Mapping(
            Seq::new(
                entries@.len(),
                |i: int|
                    if 0 <= i < entries@.len() {
                        (model(entries@[i].0), model(entries@[i].1))
                    } else {
                        (YamlModel::Null, YamlModel::Null)
                    },
            ),
        ),
        YamlValue::Tagged(tag, inner) => YamlModel::Tagged(tag@, Box::new(model(*inner))),
    }
}

/// The text of a scalar: a boolean as `true` or `false`, a number or a string
/// as written; a tagged value by its inner value. Other values have none.
pub open spec fn scalar_text(v: YamlModel) -> Option<Seq<char>>
    decreases v,
{
    match v {
        YamlModel::Bool(b) => Some(if b { "true"@ } else { "false"@ }),
        YamlModel::Number(n) => Some(n),
        YamlModel::Text(t) => Some(t),
        YamlModel::Tagged(_, inner) => scalar_text(*inner),
        _ => None,
    }
}

/// The text of a scalar (see `scalar_text`).
pub fn as_string(value: &YamlValue) -> (r: Option<String>)
    ensures
        match r {
            Some(s) => scalar_text(model(*value)) == Some(s@),
            None => scalar_text(model(*value)) is None,
        },
    decreases value,
{
    proof {
        reveal_strlit("true");
        reveal_strlit("false");
    }
    match value {
        YamlValue::Bool(b) => Some(if *b { "true".to_string() } else { "false".to_string() }),
        YamlValue::Number(n) => Some(n.clone()),
        YamlValue::Text(t) => Some(t.clone()),
        YamlValue::Tagged(_, inner) => as_string(inner),
        _ => None,
    }
}

/// The position of the first entry at or after `k` whose key is the string `name`.
pub open spec fn find_key(entries: Seq<(YamlModel, YamlModel)>, name: Seq<char>, k: int) -> Option<int>
    decreases entries.len() - k,
{
    if k < 0 || k >= entries.len() {
        None
    } else if entries[k].0 == YamlModel::Text(name) {
        Some(k)
    } else {
        find_key(entries, name, k + 1)
    }
}

proof fn lemma_find_key(entries: Seq<(YamlModel, YamlModel)>, name: Seq<char>, k: int)
    requires
        0 <= k,
    ensures
        find_key(entries, name, k) matches Some(j) ==> k <= j < entries.len() && entries[j].0
            == YamlModel::Text(name),
    decreases entries.len() - k,
{
    if k < entries.len() && entries[k].0 != YamlModel::Text(name) {
        lemma_find_key(entries, name, k + 1);
    }
}

/// One step of a path, as plain values.
pub enum Step {
    Index(usize),
    Field(Seq<char>),
}

pub open spec fn step_of(e: PathEntry) -> Step {
    match e {
        PathEntry::Index(i) => Step::Index(i),
        PathEntry::Field(f) => Step::Field(f@),
    }
}

/// The steps of a path.
pub open spec fn steps(p: Seq<PathEntry>) -> Seq<Step> {
    p.map_values(|e: PathEntry| step_of(e))
}

/// Whether a value has the shape that a step goes into: a sequence for an
/// index, a mapping for a field.
pub open spec fn fits(y: YamlModel, step: Step) -> bool {
    (y is Sequence && step is Index) || (y is Mapping && step is Field)
}

/// `y` with the value at `path` set to `field`. An index past the end of a
/// sequence, or a missing field when `create` is off, leaves `y` as it is; with
/// `create` a missing field is added, and a value of the wrong shape is
/// replaced by an empty sequence or mapping first.
pub open spec fn set_in(y: YamlModel, path: Seq<Step>, field: YamlModel, create: bool) -> YamlModel
    decreases path.len(), if path.len() > 0 && fits(y, path[0]) { 0nat } else { 1nat },
{
    if path.len() == 0 {
        field
    } else {
        let rest = path.skip(1);
        match path[0] {
            Step::Index(i) => match y {
                YamlModel::Sequence(items) => if i < items.len() {
                    YamlModel::Sequence(items.update(i as int, set_in(items[i as int], rest, field, create)))
                } else {
                    y
                },
                _ => if create {
                    set_in(YamlModel::Sequence(seq![]), path, field, create)
                } else {
                    y
                },
            },
            Step::Field(name) => match y {
                YamlModel::Mapping(entries) => match find_key(entries, name, 0) {
                    Some(k) => YamlModel::Mapping(
                        entries.update(k, (entries[k].0, set_in(entries[k].1, rest, field, create))),
                    ),
                    None => if create {
                        YamlModel::Mapping(
                            entries.push((YamlModel::Text(name), set_in(YamlModel::Null, rest, field, create))),
                        )
                    } else {
                        y
                    },
                },
                _ => if create {
                    set_in(YamlModel::Mapping(seq![]), path, field, create)
                } else {
                    y
                },
            },
        }
    }
}

pub open spec fn items_model(items: Seq<YamlValue>) -> Seq<YamlModel> {
    Seq::new(items.len(), |i: int| model(items[i]))
}

pub open spec fn entries_model(entries: Seq<(YamlValue, YamlValue)>) -> Seq<(YamlModel, YamlModel)> {
    Seq::new(entries.len(), |i: int| (model(entries[i].0), model(entries[i].1)))
}

/// A copy of `v`.
pub fn copy_value(v: &YamlValue) -> (r: YamlValue)
    ensures
        model(r) == model(*v),
    decreases v,
{
    match v {
        YamlValue::Null => YamlValue::Null,
        YamlValue::Bool(b) => YamlValue::Bool(*b),
        YamlValue::Number(n) => YamlValue::Number(n.clone()),
        YamlValue::Text(t) => YamlValue::Text(t.clone()),
        YamlValue::Sequence(items) => {
            let mut out: Vec<YamlValue> = Vec::new();
            let mut i: usize = 0;
            proof {
                assert forall|j: int| 0 <= j < items@.len() implies decreases_to!(*v => #[trigger] items@[j]) by {
                    assert(decreases_to!(*v => (*v)->Sequence_0));
                    assert(decreases_to!((*v)->Sequence_0 => (*v)->Sequence_0@));
                    assert(decreases_to!((*v)->Sequence_0@ => (*v)->Sequence_0@[j]));
                }
            }
            while i < items.len()
                invariant
                    forall|j: int| 0 <= j < items@.len() ==> decreases_to!(*v => #[trigger] items@[j]),
                    i <= items@.len(),
                    out@.len() == i,
                    forall|j: int| 0 <= j < i ==> model(#[trigger] out@[j]) == model(items@[j]),
                decreases items@.len() - i,
            {
                out.push(copy_value(&items[i]));
                i += 1;
            }
            proof {
                assert(model(YamlValue::Sequence(out)) == model(*v)) by {
                    if let YamlModel::Sequence(a) = model(YamlValue::Sequence(out)) {
                        if let YamlModel::Sequence(b) = model(*v) {
                            assert(a =~= b);
                        }
                    }
                }
            }
            YamlValue::Sequence(out)
        },
        YamlValue::Mapping(entries) => {
            let mut out: Vec<(YamlValue, YamlValue)> = Vec::new();
            let mut i: usize = 0;
            proof {
                assert forall|j: int| 0 <= j < entries@.len() implies decreases_to!(*v => #[trigger] entries@[j].0)
                    && decreases_to!(*v => entries@[j].1) by {
                    assert(decreases_to!(*v => (*v)->Mapping_0));
                    assert(decreases_to!((*v)->Mapping_0 => (*v)->Mapping_0@));
                    assert(decreases_to!((*v)->Mapping_0@ => (*v)->Mapping_0@[j]));
                    assert(decreases_to!((*v)->Mapping_0@[j] => (*v)->Mapping_0@[j].0));
                    assert(decreases_to!((*v)->Mapping_0@[j] => (*v)->Mapping_0@[j].1));
                }
            }
            while i < entries.len()
                invariant
                    forall|j: int|
                        0 <= j < entries@.len() ==> decreases_to!(*v => #[trigger] entries@[j].0)
                            && decreases_to!(*v => entries@[j].1),
                    i <= entries@.len(),
                    out@.len() == i,
                    forall|j: int|
                        0 <= j < i ==> model(#[trigger] out@[j].0) == model(entries@[j].0) && model(
                            out@[j].1,
                        ) == model(entries@[j].1),
                decreases entries@.len() - i,
            {
                let k = copy_value(&entries[i].0);
                let w = copy_value(&entries[i].1);
                out.push((k, w));
                i += 1;
            }
            proof {
                assert(model(YamlValue::Mapping(out)) == model(*v)) by {
                    if let YamlModel::Mapping(a) = model(YamlValue::Mapping(out)) {
                        if let YamlModel::Mapping(b) = model(*v) {
                            assert(a =~= b);
                        }
                    }
                }
            }
            YamlValue::Mapping(out)
        },
        YamlValue::Tagged(tag, inner) => YamlValue::Tagged(tag.clone(), Box::new(copy_value(inner))),
    }
}

fn find_field(entries: &Vec<(YamlValue, YamlValue)>, name: &String) -> (r: Option<usize>)
    ensures
        match r {
            Some(k) => find_key(entries_model(entries@), name@, 0) == Some(k as int),
            None => find_key(entries_model(entries@), name@, 0) is None,
        },
{
    let ghost em = entries_model(entries@);
    let mut k: usize = 0;
    while k < entries.len()
        invariant
            em == entries_model(entries@),
            k <= entries@.len(),
            find_key(em, name@, 0) == find_key(em, name@, k as int),
        decreases entries@.len() - k,
    {
        let hit = match &entries[k].0 {
            YamlValue::Text(t) => *t == *name,
            _ => false,
        };
        if hit {
            return Some(k);
        }
        k += 1;
    }
    None
}

/// Sets the value at the steps of `path` from `from` on (see `set_in`).
pub fn set_field_from(yaml: &mut YamlValue, path: &Path, from: usize, field: &YamlValue, create: bool)
    requires
        from <= path@.len(),
    ensures
        model(*final(yaml)) == set_in(model(*old(yaml)), steps(path@).skip(from as int), model(*field), create),
    decreases path@.len() - from, 1nat,
{
    if from >= path.len() {
        *yaml = copy_value(field);
        return;
    }
    if set_in_sequence(yaml, path, from, field, create) {
        return;
    }
    if set_in_mapping(yaml, path, from, field, create) {
        return;
    }
    if create {
        let ghost before = model(*yaml);
        match &path[from] {
            PathEntry::Index(_) => {
                *yaml = YamlValue::Sequence(Vec::new());
                proof {
                    assert(model(*yaml) == YamlModel::Sequence(seq![])) by {
                        assert(model(*yaml)->Sequence_0 =~= Seq::<YamlModel>::empty());
                    }
                }
                set_in_sequence(yaml, path, from, field, create);
            },
            PathEntry::Field(_) => {
                *yaml = YamlValue::Mapping(Vec::new());
                proof {
                    assert(model(*yaml) == YamlModel::Mapping(seq![])) by {
                        assert(model(*yaml)->Mapping_0 =~= Seq::<(YamlModel, YamlModel)>::empty());
                    }
                }
                set_in_mapping(yaml, path, from, field, create);
            },
        }
    }
}

fn set_in_sequence(yaml: &mut YamlValue, path: &Path, from: usize, field: &YamlValue, create: bool) -> (r: bool)
    requires
        from < path@.len(),
    ensures
        r == (model(*old(yaml)) is Sequence && path@[from as int] is Index),
        r ==> model(*final(yaml)) == set_in(model(*old(yaml)), steps(path@).skip(from as int), model(*field), create),
        !r ==> *final(yaml) == *old(yaml),
    decreases path@.len() - from, 0nat,
{
    let len = path.len();
    let ghost p = steps(path@).skip(from as int);
    proof {
        assert(from + 1 <= len);
    }
    proof {
        assert(p.skip(1) =~= steps(path@).skip(from + 1));
        assert(p[0] == step_of(path@[from as int]));
    }
    match yaml {
        YamlValue::Sequence(values) => match &path[from] {
            PathEntry::Index(i) => {
                let ghost old_items = values@;
                if *i < values.len() {
                    set_field_from(&mut values[*i], path, from + 1, field, create);
                    proof {
                        let m = model(*final(yaml))->Sequence_0;
                        let o = model(*old(yaml))->Sequence_0;
                        assert(m =~= o.update(*i as int, set_in(o[*i as int], p.skip(1), model(*field), create)));
                    }
                }
                true
            },
            PathEntry::Field(_) => false,
        },
        _ => false,
    }
}

fn set_in_mapping(yaml: &mut YamlValue, path: &Path, from: usize, field: &YamlValue, create: bool) -> (r: bool)
    requires
        from < path@.len(),
    ensures
        r == (model(*old(yaml)) is Mapping && path@[from as int] is Field),
        r ==> model(*final(yaml)) == set_in(model(*old(yaml)), steps(path@).skip(from as int), model(*field), create),
        !r ==> *final(yaml) == *old(yaml),
    decreases path@.len() - from, 0nat,
{
    let len = path.len();
    let ghost p = steps(path@).skip(from as int);
    proof {
        assert(from + 1 <= len);
    }
    proof {
        assert(p.skip(1) =~= steps(path@).skip(from + 1));
        assert(p[0] == step_of(path@[from as int]));
    }
    match yaml {
        YamlValue::Mapping(entries) => match &path[from] {
            PathEntry::Field(name) => {
                let ghost o = model(*old(yaml))->Mapping_0;
                proof {
                    assert(o =~= entries_model(entries@));
                }
                match find_field(entries, name) {
                    Some(k) => {
                        proof {
                            lemma_find_key(o, name@, 0);
                        }
                        set_field_from(&mut entries[k].1, path, from + 1, field, create);
                        proof {
                            let m = model(*final(yaml))->Mapping_0;
                            assert(m =~= o.update(k as int, (o[k as int].0, set_in(o[k as int].1, p.skip(1), model(*field), create))));
                        }
                    },
                    None => {
                        if create {
                            let mut v = YamlValue::Null;
                            set_field_from(&mut v, path, from + 1, field, create);
                            let key = YamlValue::Text(name.clone());
                            let ghost added = (model(key), model(v));
                            proof {
                                assert(added == (YamlModel::Text(name@), set_in(YamlModel::Null, p.skip(1), model(*field), create)));
                            }
                            let ghost es = entries@;
                            entries.push((key, v));
                            proof {
                                assert(entries_model(entries@) =~= entries_model(es).push(added));
                                let m = model(*final(yaml))->Mapping_0;
                                assert(m =~= o.push((YamlModel::Text(name@), set_in(YamlModel::Null, p.skip(1), model(*field), create))));
                            }
                        }
                    },
                }
                true
            },
            PathEntry::Index(_) => false,
        },
        _ => false,
    }
}

/// Sets the value at `path` to a copy of `field` (see `set_in`).
pub fn set_field(yaml: &mut YamlValue, path: &Path, field: &YamlValue, create: bool)
    ensures
        model(*final(yaml)) == set_in(model(*old(yaml)), steps(path@), model(*field), create),
{
    proof {
        assert(steps(path@).skip(0) =~= steps(path@));
    }
    set_field_from(yaml, path, 0, field, create)
}

/// Sets the value below a sequence item, when `yaml` is a sequence and `next`
/// (the first step of `path`) an index; whether it was.
pub fn set_field_in_sequence(yaml: &mut YamlValue, path: &Path, next: &PathEntry, field: &YamlValue, create: bool) -> (r: bool)
    requires
        path@.len() > 0,
        *next == path@[0],
    ensures
        r == (model(*old(yaml)) is Sequence && next is Index),
        r ==> model(*final(yaml)) == set_in(model(*old(yaml)), steps(path@), model(*field), create),
        !r ==> *final(yaml) == *old(yaml),
{
    proof {
        assert(steps(path@).skip(0) =~= steps(path@));
    }
    set_in_sequence(yaml, path, 0, field, create)
}

/// Sets the value below a mapping entry, when `yaml` is a mapping and `next`
/// (the first step of `path`) a field; whether it was.
pub fn set_field_in_mapping(yaml: &mut YamlValue, path: &Path, next: &PathEntry, field: &YamlValue, create: bool) -> (r: bool)
    requires
        path@.len() > 0,
        *next == path@[0],
    ensures
        r == (model(*old(yaml)) is Mapping && next is Field),
        r ==> model(*final(yaml)) == set_in(model(*old(yaml)), steps(path@), model(*field), create),
        !r ==> *final(yaml) == *old(yaml),
{
    proof {
        assert(steps(path@).skip(0) =~= steps(path@));
    }
    set_in_mapping(yaml, path, 0, field, create)
}

/// A value found in a document, with the path to it.
#[derive(Debug)]
pub struct YamlField<'a> {
    pub path: Path,
    pub value: &'a YamlValue,
}

/// The value reached from `y` by following the field names `names`, if every
/// step finds a mapping with that field.
pub open spec fn lookup(y: YamlModel, names: Seq<Seq<char>>) -> Option<YamlModel>
    decreases names.len(),
{
    if names.len() == 0 {
        Some(y)
    } else {
        match y {
            YamlModel::Mapping(es) => match find_key(es, names[0], 0) {
                Some(j) => lookup(es[j].1, names.skip(1)),
                None => None,
            },
            _ => None,
        }
    }
}

/// The steps that follow the field names `names`.
pub open spec fn field_steps(names: Seq<Seq<char>>) -> Seq<Step> {
    names.map_values(|n: Seq<char>| Step::Field(n))
}

fn get_from<'a, 'q>(yaml: &'a YamlValue, parts: &Vec<&'q str>, k: usize, path: Path) -> (r: Option<YamlField<'a>>)
    requires
        k <= parts@.len(),
    ensures
        match r {
            Some(f) => lookup(model(*yaml), views(parts@).skip(k as int)) == Some(model(*f.value))
                && steps(f.path@) == steps(path@) + field_steps(views(parts@).skip(k as int)),
            None => lookup(model(*yaml), views(parts@).skip(k as int)) is None,
        },
    decreases parts@.len() - k,
{
    let ghost names = views(parts@).skip(k as int);
    if k >= parts.len() {
        proof {
            assert(names =~= Seq::<Seq<char>>::empty());
            assert(steps(path@) + field_steps(names) =~= steps(path@));
        }
        return Some(YamlField { path, value: yaml });
    }
    proof {
        assert(names.skip(1) =~= views(parts@).skip(k + 1));
        assert(names[0] == parts@[k as int]@);
    }
    match yaml {
        YamlValue::Mapping(entries) => {
            let name = parts[k].to_string();
            proof {
                assert(model(*yaml)->Mapping_0 =~= entries_model(entries@));
            }
            match find_field(entries, &name) {
                Some(j) => {
                    proof {
                        lemma_find_key(entries_model(entries@), name@, 0);
                    }
                    let mut path = path;
                    let ghost before = path@;
                    path.push(PathEntry::Field(name));
                    proof {
                        assert(steps(path@) =~= steps(before).push(Step::Field(names[0])));
                    }
                    let r = get_from(&entries[j].1, parts, k + 1, path);
                    proof {
                        if r is Some {
                            assert(steps(r->Some_0.path@) =~= steps(before) + field_steps(names));
                        }
                    }
                    r
                },
                None => None,
            }
        },
        _ => None,
    }
}

/// The value at the slash-separated field names of `query`, with `path`
/// extended by those fields; `None` when a step finds no such field.
pub fn get_field<'a>(yaml: &'a YamlValue, query: &str, path: Path) -> (r: Option<YamlField<'a>>)
    ensures
        match r {
            Some(f) => lookup(model(*yaml), segments(query@)) == Some(model(*f.value)) && steps(f.path@)
                == steps(path@) + field_steps(segments(query@)),
            None => lookup(model(*yaml), segments(query@)) is None,
        },
{
    let parts = split_path(query);
    proof {
        assert(views(parts@).skip(0) =~= views(parts@));
    }
    get_from(yaml, &parts, 0, path)
}

/// The text of the scalar at `query` below `y`, if there is one.
pub open spec fn text_at(y: YamlModel, query: Seq<char>) -> Option<Seq<char>> {
    match lookup(y, segments(query)) {
        Some(v) => scalar_text(v),
        None => None,
    }
}

/// The environment variable that an item of an env list defines: its name and
/// its value are the scalars at the configured paths, and both must be there.
pub fn get_env<'a>(field: YamlField<'a>, config: &crate::config::Config) -> (r: Option<EnvVar>)
    ensures
        match r {
            Some(e) => text_at(model(*field.value), config.gitlab.env_name_path@) == Some(e.name@)
                && text_at(model(*field.value), config.gitlab.env_value_path@) == Some(e.value@)
                && e.source_path == field.path,
            None => text_at(model(*field.value), config.gitlab.env_name_path@) is None
                || text_at(model(*field.value), config.gitlab.env_value_path@) is None,
        },
{
    let name = match get_field(field.value, config.gitlab.env_name_path.as_str(), Vec::new()) {
        Some(f) => as_string(f.value),
        None => None,
    };
    let value = match get_field(field.value, config.gitlab.env_value_path.as_str(), Vec::new()) {
        Some(f) => as_string(f.value),
        None => None,
    };
    match (name, value) {
        (Some(name), Some(value)) => Some(EnvVar { source_path: field.path, name, value }),
        _ => None,
    }
}

/// The path of the fields named by a slash-separated text.
pub open spec fn query_steps(query: Seq<char>) -> Seq<Step> {
    field_steps(segments(query))
}

/// A mapping that sets `key` at the configured name path and `value` at the
/// configured value path.
pub fn generate_env(key: String, value: String, config: &crate::gitlab::Config) -> (r: YamlValue)
    ensures
        model(r) == set_in(
            set_in(YamlModel::Null, query_steps(config.env_name_path@), YamlModel::Text(key@), true),
            query_steps(config.env_value_path@),
            YamlModel::Text(value@),
            true,
        ),
{
    let mut result = YamlValue::Null;
    let name_path = path_from_str(config.env_name_path.as_str());
    let value_path = path_from_str(config.env_value_path.as_str());
    proof {
        assert(steps(name_path@) =~= query_steps(config.env_name_path@));
        assert(steps(value_path@) =~= query_steps(config.env_value_path@));
    }
    set_field(&mut result, &name_path, &YamlValue::Text(key), true);
    set_field(&mut result, &value_path, &YamlValue::Text(value), true);
    result
}

/// A copy of a path.
pub fn copy_path(p: &Path) -> (r: Path)
    ensures
        steps(r@) == steps(p@),
{
    let mut out: Path = Vec::new();
    let mut i: usize = 0;
    while i < p.len()
        invariant
            i <= p@.len(),
            out@.len() == i,
            forall|j: int| 0 <= j < i ==> step_of(#[trigger] out@[j]) == step_of(p@[j]),
        decreases p@.len() - i,
    {
        let e = match &p[i] {
            PathEntry::Index(x) => PathEntry::Index(*x),
            PathEntry::Field(f) => PathEntry::Field(f.clone()),
        };
        out.push(e);
        i += 1;
    }
    proof {
        assert(steps(out@) =~= steps(p@));
    }
    out
}

/// The number of items of a sequence; zero for any other value.
pub open spec fn item_count(y: YamlModel) -> nat {
    match y {
        YamlModel::Sequence(items) => items.len(),
        _ => 0,
    }
}

/// Every value that the field names `names` reach from `y`, each with its path
/// (`path` extended by the steps taken). A sequence on the way is entered item
/// by item, in order, without using up a name; a missing field reaches nothing.
pub open spec fn fields_in(y: YamlModel, names: Seq<Seq<char>>, path: Seq<Step>) -> Seq<(Seq<Step>, YamlModel)>
    decreases y, item_count(y) + 1,
{
    if names.len() == 0 {
        seq![(path, y)]
    } else {
        match y {
            YamlModel::Sequence(_) => fields_in_items(y, names, path, 0),
            YamlModel::Mapping(es) => match find_key(es, names[0], 0) {
                Some(j) => if 0 <= j < es.len() {
                    fields_in(es[j].1, names.skip(1), path.push(Step::Field(names[0])))
                } else {
                    seq![]
                },
                None => seq![],
            },
            _ => seq![],
        }
    }
}

/// What `fields_in` finds below the items of the sequence `y` from item `i` on.
pub open spec fn fields_in_items(y: YamlModel, names: Seq<Seq<char>>, path: Seq<Step>, i: int) -> Seq<
    (Seq<Step>, YamlModel),
>
    decreases y, item_count(y) - i,
{
    if y is Sequence && 0 <= i < item_count(y) {
        fields_in(y->Sequence_0[i], names, path.push(Step::Index(i as usize))) + fields_in_items(
            y,
            names,
            path,
            i + 1,
        )
    } else {
        seq![]
    }
}

/// The paths and values of a list of found fields.
pub open spec fn found(fs: Seq<YamlField>) -> Seq<(Seq<Step>, YamlModel)> {
    fs.map_values(|f: YamlField| (steps(f.path@), model(*f.value)))
}

fn get_fields_from<'a, 'q>(yaml: &'a YamlValue, parts: &Vec<&'q str>, k: usize, path: Path) -> (r: Vec<YamlField<'a>>)
    requires
        k <= parts@.len(),
    ensures
        found(r@) == fields_in(model(*yaml), views(parts@).skip(k as int), steps(path@)),
    decreases yaml, parts@.len() - k,
{
    let ghost names = views(parts@).skip(k as int);
    if k >= parts.len() {
        proof {
            assert(names =~= Seq::<Seq<char>>::empty());
        }
        let r = vec![YamlField { path, value: yaml }];
        proof {
            assert(found(r@) =~= seq![(steps(path@), model(*yaml))]);
        }
        return r;
    }
    proof {
        assert(names.skip(1) =~= views(parts@).skip(k + 1));
        assert(names[0] == parts@[k as int]@);
    }
    match yaml {
        YamlValue::Sequence(values) => {
            let ghost y = model(*yaml);
            let mut out: Vec<YamlField<'a>> = Vec::new();
            let mut i: usize = 0;
            proof {
                assert forall|j: int| 0 <= j < values@.len() implies decreases_to!(*yaml => #[trigger] values@[j]) by {
                    assert(decreases_to!(*yaml => (*yaml)->Sequence_0));
                    assert(decreases_to!((*yaml)->Sequence_0 => (*yaml)->Sequence_0@));
                    assert(decreases_to!((*yaml)->Sequence_0@ => (*yaml)->Sequence_0@[j]));
                }
                assert(found(out@) + fields_in_items(y, names, steps(path@), 0) =~= fields_in_items(y, names, steps(path@), 0));
            }
            while i < values.len()
                invariant
                    forall|j: int| 0 <= j < values@.len() ==> decreases_to!(*yaml => #[trigger] values@[j]),
                    y == model(*yaml),
                    y is Sequence,
                    y->Sequence_0 == items_model(values@),
                    i <= values@.len(),
                    k < parts@.len(),
                    names == views(parts@).skip(k as int),
                    found(out@) + fields_in_items(y, names, steps(path@), i as int) == fields_in(y, names, steps(path@)),
                decreases values@.len() - i,
            {
                let mut item_path = copy_path(&path);
                item_path.push(PathEntry::Index(i));
                let ghost ip = steps(item_path@);
                proof {
                    assert(ip =~= steps(path@).push(Step::Index(i)));
                }
                let mut sub = get_fields_from(&values[i], parts, k, item_path);
                let ghost before = out@;
                out.append(&mut sub);
                proof {
                    assert(found(out@) =~= found(before) + fields_in(model(values@[i as int]), names, ip));
                    assert(y->Sequence_0[i as int] == model(values@[i as int]));
                    assert(found(out@) + fields_in_items(y, names, steps(path@), i + 1) =~= found(before)
                        + fields_in_items(y, names, steps(path@), i as int));
                }
                i += 1;
            }
            proof {
                assert(fields_in_items(y, names, steps(path@), i as int) =~= Seq::<(Seq<Step>, YamlModel)>::empty());
                assert(found(out@) =~= found(out@) + fields_in_items(y, names, steps(path@), i as int));
            }
            out
        },
        YamlValue::Mapping(entries) => {
            let name = parts[k].to_string();
            proof {
                assert(model(*yaml)->Mapping_0 =~= entries_model(entries@));
            }
            match find_field(entries, &name) {
                Some(j) => {
                    proof {
                        lemma_find_key(entries_model(entries@), name@, 0);
                        assert(decreases_to!(*yaml => (*yaml)->Mapping_0));
                        assert(decreases_to!((*yaml)->Mapping_0 => (*yaml)->Mapping_0@));
                        assert(decreases_to!((*yaml)->Mapping_0@ => (*yaml)->Mapping_0@[j as int]));
                        assert(decreases_to!((*yaml)->Mapping_0@[j as int] => (*yaml)->Mapping_0@[j as int].1));
                    }
                    let mut path = path;
                    let ghost before = path@;
                    path.push(PathEntry::Field(name));
                    proof {
                        assert(steps(path@) =~= steps(before).push(Step::Field(names[0])));
                    }
                    get_fields_from(&entries[j].1, parts, k + 1, path)
                },
                None => {
                    let r: Vec<YamlField<'a>> = Vec::new();
                    proof {
                        assert(found(r@) =~= Seq::<(Seq<Step>, YamlModel)>::empty());
                    }
                    r
                },
            }
        },
        _ => {
            let r: Vec<YamlField<'a>> = Vec::new();
            proof {
                assert(found(r@) =~= Seq::<(Seq<Step>, YamlModel)>::empty());
            }
            r
        },
    }
}

/// Every value at the slash-separated field names of `query` (see `fields_in`),
/// with `path` extended by the steps to it.
pub fn get_fields<'a>(yaml: &'a YamlValue, query: &str, path: Path) -> (r: Vec<YamlField<'a>>)
    ensures
        found(r@) == fields_in(model(*yaml), segments(query@), steps(path@)),
{
    let parts = split_path(query);
    proof {
        assert(views(parts@).skip(0) =~= views(parts@));
    }
    get_fields_from(yaml, &parts, 0, path)
}

/// A found sequence as one found value per item, each with the sequence's
/// path; any other value as itself.
pub fn as_sequence<'a>(field: YamlField<'a>) -> (r: Vec<YamlField<'a>>)
    ensures
        found(r@) == match model(*field.value) {
            YamlModel::Sequence(items) => items.map_values(|m: YamlModel| (steps(field.path@), m)),
            other => seq![(steps(field.path@), other)],
        },
{
    match field.value {
        YamlValue::Sequence(values) => {
            let mut out: Vec<YamlField<'a>> = Vec::new();
            let mut i: usize = 0;
            while i < values.len()
                invariant
                    i <= values@.len(),
                    out@.len() == i,
                    forall|j: int|
                        0 <= j < i ==> steps((#[trigger] out@[j]).path@) == steps(field.path@)
                            && model(*out@[j].value) == model(values@[j]),
                decreases values@.len() - i,
            {
                out.push(YamlField { path: copy_path(&field.path), value: &values[i] });
                i += 1;
            }
            proof {
                assert(found(out@) =~= model(*field.value)->Sequence_0.map_values(
                    |m: YamlModel| (steps(field.path@), m),
                ));
            }
            out
        },
        _ => {
            let ghost fp = steps(field.path@);
            let ghost fm = model(*field.value);
            let r = vec![field];
            proof {
                assert(found(r@) =~= seq![(fp, fm)]);
            }
            r
        },
    }
}

} // verus!
