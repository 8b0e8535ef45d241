use vstd::prelude::*;
use vstd::string::{StrSliceExecFns, StringExecFns};
use crate::text::{decimal, push_decimal};

verus! {

broadcast use vstd::string::group_string_axioms;

/// One step into a YAML document: an index into a sequence or a field of a mapping.
#[derive(Clone, Debug)]
pub enum PathEntry {
    Index(usize),
    Field(String),
}

/// Where a value sits in a YAML document.
pub type Path = Vec<PathEntry>;

/// Two steps are the same step.
pub open spec fn same_entry(a: PathEntry, b: PathEntry) -> bool {
    match (a, b) {
        (PathEntry::Index(i0), PathEntry::Index(i1)) => i0 == i1,
        (PathEntry::Field(f0), PathEntry::Field(f1)) => f0@ == f1@,
        _ => false,
    }
}

/// Two steps are of one kind, and equal if they are indices.
pub open spec fn same_index(a: PathEntry, b: PathEntry) -> bool {
    match (a, b) {
        (PathEntry::Index(i0), PathEntry::Index(i1)) => i0 == i1,
        (PathEntry::Field(_), PathEntry::Field(_)) => true,
        _ => false,
    }
}

fn entry_matches(pat: &PathEntry, entry: &PathEntry, index_only: bool) -> (r: bool)
    ensures
        r == if index_only {
            same_index(*pat, *entry)
        } else {
            same_entry(*pat, *entry)
        },
{
    match pat {
        PathEntry::Index(i0) => match entry {
            PathEntry::Index(i1) => *i0 == *i1,
            PathEntry::Field(_) => false,
        },
        PathEntry::Field(f0) => match entry {
            PathEntry::Index(_) => false,
            PathEntry::Field(f1) => index_only || *f0 == *f1,
        },
    }
}

fn prefix_matches(path: &Path, pattern: &Path, index_only: bool) -> (r: bool)
    ensures
        r == (pattern@.len() <= path@.len() && forall|i: int|
            0 <= i < pattern@.len() ==> if index_only {
                same_index(#[trigger] pattern@[i], path@[i])
            } else {
                same_entry(#[trigger] pattern@[i], path@[i])
            }),
{
    if path.len() < pattern.len() {
        return false;
    }
    let mut i: usize = 0;
    while i < pattern.len()
        invariant
            pattern@.len() <= path@.len(),
            i <= pattern@.len(),
            forall|j: int|
                0 <= j < i ==> if index_only {
                    same_index(#[trigger] pattern@[j], path@[j])
                } else {
                    same_entry(#[trigger] pattern@[j], path@[j])
                },
        decreases pattern@.len() - i,
    {
        if !entry_matches(&pattern[i], &path[i], index_only) {
            return false;
        }
        i += 1;
    }
    true
}

/// Whether `path` begins with the steps of `pattern`.
pub fn starts_with(path: &Path, pattern: &Path) -> (r: bool)
    ensures
        r == (pattern@.len() <= path@.len() && forall|i: int|
            0 <= i < pattern@.len() ==> same_entry(#[trigger] pattern@[i], path@[i])),
{
    prefix_matches(path, pattern, false)
}

/// Whether `path` begins with the steps of `pattern`, where any field matches any field.
pub fn starts_with_indexonly(path: &Path, pattern: &Path) -> (r: bool)
    ensures
        r == (pattern@.len() <= path@.len() && forall|i: int|
            0 <= i < pattern@.len() ==> same_index(#[trigger] pattern@[i], path@[i])),
{
    prefix_matches(path, pattern, true)
}

/// Walks `source` from step `k` on, over a `target` that agrees with it before `k`:
/// an index of `source` is inserted into `target` at its place, a field of `source`
/// must be the field at that place of `target`, and the walk stops at the first
/// field that is not.
pub open spec fn enrich(target: Seq<PathEntry>, source: Seq<PathEntry>, k: int) -> Seq<PathEntry>
    decreases source.len() - k,
{
    if k < 0 || k >= source.len() {
        target
    } else {
        match source[k] {
            PathEntry::Index(i) => enrich(target.insert(k, PathEntry::Index(i)), source, k + 1),
            PathEntry::Field(f) => if k < target.len() && target[k] is Field && target[k]->Field_0@
                == f@ {
                enrich(target, source, k + 1)
            } else {
                target
            },
        }
    }
}

/// Copies the indices of `source` into `target` where the two paths agree on
/// their fields, so that `target` points into the same sequence items.
pub fn enrich_path_with_indices(target: &mut Path, source: &Path)
    ensures
        final(target)@ == enrich(old(target)@, source@, 0),
{
    let mut k: usize = 0;
    while k < source.len()
        invariant
            k <= source@.len(),
            k <= target@.len(),
            enrich(old(target)@, source@, 0) == enrich(target@, source@, k as int),
        decreases source@.len() - k,
    {
        match &source[k] {
            PathEntry::Index(i) => {
                target.insert(k, PathEntry::Index(*i));
                k += 1;
            },
            PathEntry::Field(source_f) => {
                if k >= target.len() {
                    return;
                }
                let same = match &target[k] {
                    PathEntry::Field(target_f) => *source_f == *target_f,
                    PathEntry::Index(_) => false,
                };
                if !same {
                    return;
                }
                k += 1;
            },
        }
    }
}

/// The scan behind `segments`: the runs finished so far, and the run in progress.
pub open spec fn scan(s: Seq<char>) -> (Seq<Seq<char>>, Seq<char>)
    decreases s.len(),
{
    if s.len() == 0 {
        (seq![], seq![])
    } else {
        let (done, cur) = scan(s.drop_last());
        if s.last() == '/' {
            (if cur.len() > 0 { done.push(cur) } else { done }, seq![])
        } else {
            (done, cur.push(s.last()))
        }
    }
}

/// The non-empty runs of characters between slashes, in order.
pub open spec fn segments(s: Seq<char>) -> Seq<Seq<char>> {
    let (done, cur) = scan(s);
    if cur.len() > 0 {
        done.push(cur)
    } else {
        done
    }
}

pub open spec fn views<'a>(parts: Seq<&'a str>) -> Seq<Seq<char>> {
    parts.map_values(|p: &'a str| p@)
}

/// Splits `value` at each slash and drops the empty pieces.
pub fn split_path<'a>(value: &'a str) -> (r: Vec<&'a str>)
    ensures
        views(r@) == segments(value@),
{
    let n = value.unicode_len();
    let mut parts: Vec<&'a str> = Vec::new();
    let mut start: usize = 0;
    let mut i: usize = 0;
    proof {
        assert(value@.take(0) =~= Seq::<char>::empty());
        assert(views(parts@) =~= Seq::<Seq<char>>::empty());
        assert(value@.subrange(0, 0) =~= Seq::<char>::empty());
    }
    while i < n
        invariant
            n == value@.len(),
            start <= i <= n,
            scan(value@.take(i as int)) == (views(parts@), value@.subrange(start as int, i as int)),
        decreases n - i,
    {
        let c = value.get_char(i);
        proof {
            assert(value@.take(i + 1).drop_last() =~= value@.take(i as int));
        }
        if c == '/' {
            if start < i {
                let ghost done = parts@;
                let piece = value.substring_char(start, i);
                parts.push(piece);
                proof {
                    assert(views(parts@) =~= views(done).push(value@.subrange(start as int, i as int)));
                }
            }
            start = i + 1;
            proof {
                assert(value@.subrange(start as int, i + 1) =~= Seq::<char>::empty());
            }
        } else {
            proof {
                assert(value@.subrange(start as int, i + 1) =~= value@.subrange(start as int, i as int).push(c));
            }
        }
        i += 1;
    }
    let ghost before = parts@;
    if start < n {
        let piece = value.substring_char(start, n);
        parts.push(piece);
        proof {
            assert(views(parts@) =~= views(before).push(value@.subrange(start as int, n as int)));
        }
    }
    proof {
        assert(value@.take(n as int) =~= value@);
    }
    parts
}

/// A query over a YAML document: the field names to follow, and how many of
/// them have been followed.
#[derive(Clone, Debug)]
pub struct QueryPath<'a> {
    pub index: usize,
    pub parts: Vec<&'a str>,
}

impl<'a> QueryPath<'a> {
    /// The query of the non-empty slash-separated pieces of `value`.
    pub fn from(value: &'a str) -> (r: QueryPath<'a>)
        ensures
            r.index == 0,
            views(r.parts@) == segments(value@),
    {
        QueryPath { index: 0, parts: split_path(value) }
    }

    /// The next field name, if any is left; taking it moves the query on.
    pub fn next(&mut self) -> (r: Option<&'a str>)
        ensures
            final(self).parts == old(self).parts,
            old(self).index < old(self).parts@.len() ==> r == Some(old(self).parts@[old(self).index as int])
                && final(self).index == old(self).index + 1,
            old(self).index >= old(self).parts@.len() ==> r is None && final(self).index == old(self).index,
    {
        if self.index < self.parts.len() {
            let next = self.parts[self.index];
            self.index = self.index + 1;
            Some(next)
        } else {
            None
        }
    }

    /// Whether a field name is left.
    pub fn has_next(&self) -> (r: bool)
        ensures
            r == (self.index < self.parts@.len()),
    {
        self.index < self.parts.len()
    }
}

/// The path of the fields named by the non-empty slash-separated pieces of `value`.
pub fn path_from_str(value: &str) -> (r: Path)
    ensures
        r@.len() == segments(value@).len(),
        forall|i: int|
            0 <= i < r@.len() ==> (#[trigger] r@[i]) is Field && r@[i]->Field_0@ == segments(value@)[i],
{
    let parts = split_path(value);
    let mut path: Path = Vec::new();
    let mut i: usize = 0;
    while i < parts.len()
        invariant
            i <= parts@.len(),
            views(parts@) == segments(value@),
            path@.len() == i,
            forall|j: int|
                0 <= j < i ==> (#[trigger] path@[j]) is Field && path@[j]->Field_0@ == segments(value@)[j],
        decreases parts@.len() - i,
    {
        let s = parts[i].to_string();
        proof {
            assert(views(parts@)[i as int] == parts@[i as int]@);
        }
        path.push(PathEntry::Field(s));
        i += 1;
    }
    path
}

/// The text of one step: an index in brackets, a field by its name.
pub open spec fn entry_text(e: PathEntry) -> Seq<char> {
    match e {
        PathEntry::Index(i) => "["@ + decimal(i as nat) + "]"@,
        PathEntry::Field(f) => f@,
    }
}

/// The text of a path: its steps joined by dots.
pub open spec fn path_text(p: Seq<PathEntry>) -> Seq<char>
    decreases p.len(),
{
    if p.len() == 0 {
        seq![]
    } else if p.len() == 1 {
        entry_text(p[0])
    } else {
        path_text(p.drop_last()) + "."@ + entry_text(p.last())
    }
}

/// A path to be shown as text.
pub struct P<'a>(pub &'a Path);

impl<'a> P<'a> {
    /// The steps joined by dots, indices in brackets: `spec.items.[2].name`.
    pub fn to_text(&self) -> (r: String)
        ensures
            r@ == path_text(self.0@),
    {
        proof {
            reveal_strlit(".");
            reveal_strlit("[");
            reveal_strlit("]");
        }
        let mut out = String::new();
        let mut i: usize = 0;
        let entries = self.0;
        proof {
            assert(entries@.take(0) =~= Seq::<PathEntry>::empty());
        }
        while i < entries.len()
            invariant
                entries == self.0,
                i <= entries@.len(),
                out@ == path_text(entries@.take(i as int)),
            decreases entries@.len() - i,
        {
            let ghost before = out@;
            if i > 0 {
                out.append(".");
            }
            match &entries[i] {
                PathEntry::Index(idx) => {
                    out.append("[");
                    push_decimal(&mut out, *idx as u64);
                    out.append("]");
                },
                PathEntry::Field(field) => {
                    out.append(field.as_str());
                },
            }
            proof {
                let t = entries@.take(i + 1);
                assert(t.drop_last() =~= entries@.take(i as int));
                if i == 0 {
                    assert(t.len() == 1);
                    assert(out@ =~= entry_text(t[0]));
                } else {
                    assert(out@ =~= before + "."@ + entry_text(t.last()));
                }
            }
            i += 1;
        }
        proof {
            assert(entries@.take(i as int) =~= entries@);
        }
        out
    }
}

} // verus!
