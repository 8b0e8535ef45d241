use vstd::prelude::*;
use vstd::string::StringExecFns;
use vstd::string::StrSliceExecFns;
use vstd::multiset::Multiset;
use crate::text::{decimal, push_decimal};
use crate::tab::{SortingColumn, TabSorting};

verus! {

broadcast use vstd::seq_lib::group_to_multiset_ensures;

pub const KB: u64 = 1024;
pub const MB: u64 = 1048576;
pub const GB: u64 = 1073741824;
pub const TB: u64 = 1099511627776;

/// `n / d` rounded to the nearest integer, a tie going to the even neighbour.
pub open spec fn round_div(n: nat, d: nat) -> nat
    recommends
        d > 0,
{
    let q = n / d;
    let r = n % d;
    if 2 * r > d || (2 * r == d && q % 2 == 1) {
        q + 1
    } else {
        q
    }
}

/// The largest unit that `bytes` reaches, and its suffix.
pub open spec fn unit_of(bytes: nat) -> (nat, Seq<char>) {
    if bytes >= TB {
        (TB as nat, " TB"@)
    } else if bytes >= GB {
        (GB as nat, " GB"@)
    } else if bytes >= MB {
        (MB as nat, " MB"@)
    } else if bytes >= KB {
        (KB as nat, " KB"@)
    } else {
        (1, " B"@)
    }
}

/// A size in the largest unit it reaches, as a whole number of that unit.
pub open spec fn human_readable(bytes: nat) -> Seq<char> {
    let (unit, suffix) = unit_of(bytes);
    decimal(round_div(bytes, unit)) + suffix
}

/// Formats a byte count in the largest binary unit it reaches (B, KB, MB, GB,
/// TB), rounded to a whole number of that unit.
pub fn bytes_to_human_readable(bytes: u64) -> (r: String)
    ensures
        r@ == human_readable(bytes as nat),
{
    let (unit, suffix): (u64, &str) = if bytes >= TB {
        (TB, " TB")
    } else if bytes >= GB {
        (GB, " GB")
    } else if bytes >= MB {
        (MB, " MB")
    } else if bytes >= KB {
        (KB, " KB")
    } else {
        (1, " B")
    };
    proof {
        reveal_strlit(" TB");
        reveal_strlit(" GB");
        reveal_strlit(" MB");
        reveal_strlit(" KB");
        reveal_strlit(" B");
    }
    let q = bytes / unit;
    let rem = bytes % unit;
    let half = unit - rem;
    let value = if rem > half || (rem == half && q % 2 == 1) {
        q + 1
    } else {
        q
    };
    let mut out = String::new();
    push_decimal(&mut out, value);
    out.append(suffix);
    proof {
        assert(out@ =~= human_readable(bytes as nat));
    }
    out
}

/// A condition that a file entry may meet.
#[derive(Debug)]
pub enum Restriction {
    Unrestricted,
    File,
    Folder,
    Main,
    Not(Box<Restriction>),
    And(Box<Restriction>, Box<Restriction>),
}

/// One entry of a directory listing; times are seconds since the Unix epoch.
#[derive(Debug)]
pub struct FileEntry {
    pub len: u64,
    pub is_file: bool,
    pub is_dir: bool,
    pub created: i64,
    pub modified: i64,
    pub accessed: i64,
    pub path: String,
    pub file_name: String,
}

/// Whether an entry with these kinds meets `r`, `is_main` telling whether the
/// entry is the main selection.
pub open spec fn meets(is_file: bool, is_dir: bool, r: Restriction, is_main: bool) -> bool
    decreases r,
{
    match r {
        Restriction::Unrestricted => true,
        Restriction::File => is_file,
        Restriction::Folder => is_dir,
        Restriction::Main => is_main,
        Restriction::Not(inner) => !meets(is_file, is_dir, *inner, is_main),
        Restriction::And(a, b) => meets(is_file, is_dir, *a, is_main) && meets(is_file, is_dir, *b, is_main),
    }
}

impl FileEntry {
    /// Whether the entry meets `restriction` (see `meets`).
    pub fn fullfills(&self, restriction: &Restriction, is_main: bool) -> (r: bool)
        ensures
            r == meets(self.is_file, self.is_dir, *restriction, is_main),
        decreases restriction,
    {
        match restriction {
            Restriction::Unrestricted => true,
            Restriction::File => self.is_file,
            Restriction::Folder => self.is_dir,
            Restriction::Main => is_main,
            Restriction::Not(rec) => !self.fullfills(rec, is_main),
            Restriction::And(a, b) => self.fullfills(a, is_main) && self.fullfills(b, is_main),
        }
    }
}

/// `a` comes before `b` in character order (UTF-8 byte order agrees with it).
pub open spec fn lex_lt(a: Seq<char>, b: Seq<char>) -> bool
    decreases a.len(),
{
    if a.len() == 0 {
        b.len() > 0
    } else if b.len() == 0 {
        false
    } else if (a[0] as u32) != (b[0] as u32) {
        (a[0] as u32) < (b[0] as u32)
    } else {
        lex_lt(a.drop_first(), b.drop_first())
    }
}

/// No text comes before itself in character order.
pub proof fn lemma_lex_irreflexive(a: Seq<char>)
    ensures
        !lex_lt(a, a),
    decreases a.len(),
{
    if a.len() > 0 {
        lemma_lex_irreflexive(a.drop_first());
    }
}

/// Of two texts, at most one comes before the other.
pub proof fn lemma_lex_asymmetric(a: Seq<char>, b: Seq<char>)
    ensures
        lex_lt(a, b) ==> !lex_lt(b, a),
    decreases a.len(),
{
    if a.len() > 0 && b.len() > 0 {
        lemma_lex_asymmetric(a.drop_first(), b.drop_first());
    }
}

/// Whatever text lies between `a` and `c` in character order comes after `a` or before `c`.
pub proof fn lemma_lex_connected(a: Seq<char>, b: Seq<char>, c: Seq<char>)
    ensures
        lex_lt(a, c) ==> lex_lt(a, b) || lex_lt(b, c),
    decreases a.len(),
{
    if a.len() > 0 && b.len() > 0 && c.len() > 0 {
        lemma_lex_connected(a.drop_first(), b.drop_first(), c.drop_first());
    }
}

fn lex_less(a: &String, b: &String) -> (r: bool)
    ensures
        r == lex_lt(a@, b@),
{
    let sa = a.as_str();
    let sb = b.as_str();
    let na = sa.unicode_len();
    let nb = sb.unicode_len();
    let mut i: usize = 0;
    proof {
        assert(a@.skip(0) =~= a@);
        assert(b@.skip(0) =~= b@);
    }
    while i < na && i < nb
        invariant
            sa@ == a@,
            sb@ == b@,
            na == a@.len(),
            nb == b@.len(),
            i <= na,
            i <= nb,
            lex_lt(a@, b@) == lex_lt(a@.skip(i as int), b@.skip(i as int)),
        decreases na - i,
    {
        let ca = sa.get_char(i);
        let cb = sb.get_char(i);
        proof {
            assert(a@.skip(i as int).drop_first() =~= a@.skip(i + 1));
            assert(b@.skip(i as int).drop_first() =~= b@.skip(i + 1));
        }
        if (ca as u32) != (cb as u32) {
            proof {
                assert(a@.skip(i as int)[0] == ca);
                assert(b@.skip(i as int)[0] == cb);
            }
            return (ca as u32) < (cb as u32);
        }
        i += 1;
    }
    i < nb
}

/// `a` sorts strictly before `b` in the listing: folders before files, then by
/// the column; with `reverse` the order is turned around.
pub open spec fn sorts_before(a: FileEntry, b: FileEntry, sorting: TabSorting) -> bool {
    let (x, y) = if sorting.reverse { (b, a) } else { (a, b) };
    if x.is_file != y.is_file {
        !x.is_file
    } else {
        match sorting.column {
            SortingColumn::Filename => lex_lt(x.file_name@, y.file_name@),
            SortingColumn::Date => x.modified < y.modified,
            SortingColumn::Size => x.len < y.len,
        }
    }
}

/// The listing order is a strict weak order.
pub proof fn lemma_sorts_before_order(a: FileEntry, b: FileEntry, c: FileEntry, sorting: TabSorting)
    ensures
        !sorts_before(a, a, sorting),
        sorts_before(a, b, sorting) ==> !sorts_before(b, a, sorting),
        sorts_before(a, c, sorting) ==> sorts_before(a, b, sorting) || sorts_before(b, c, sorting),
{
    lemma_lex_irreflexive(a.file_name@);
    lemma_lex_asymmetric(a.file_name@, b.file_name@);
    lemma_lex_asymmetric(b.file_name@, a.file_name@);
    lemma_lex_connected(a.file_name@, b.file_name@, c.file_name@);
    lemma_lex_connected(c.file_name@, b.file_name@, a.file_name@);
}

fn before(a: &FileEntry, b: &FileEntry, sorting: &TabSorting) -> (r: bool)
    ensures
        r == sorts_before(*a, *b, *sorting),
{
    let (x, y) = if sorting.reverse { (b, a) } else { (a, b) };
    if x.is_file != y.is_file {
        !x.is_file
    } else {
        match sorting.column {
            SortingColumn::Filename => lex_less(&x.file_name, &y.file_name),
            SortingColumn::Date => x.modified < y.modified,
            SortingColumn::Size => x.len < y.len,
        }
    }
}

/// No entry of `s` sorts before an entry on its left.
pub open spec fn listing_sorted(s: Seq<FileEntry>, sorting: TabSorting) -> bool {
    forall|i: int, j: int| 0 <= i < j < s.len() ==> !sorts_before(#[trigger] s[j], #[trigger] s[i], sorting)
}

/// `perm` takes each position of `s` to the position of `t` that its entry came
/// from, one to one, and entries that sort alike keep their order.
pub open spec fn stable_arrangement(s: Seq<FileEntry>, t: Seq<FileEntry>, perm: Seq<int>, sorting: TabSorting) -> bool {
    &&& perm.len() == s.len()
    &&& s.len() == t.len()
    &&& forall|k: int| 0 <= k < perm.len() ==> 0 <= #[trigger] perm[k] < t.len() && s[k] == t[perm[k]]
    &&& forall|k: int, l: int| 0 <= k < l < perm.len() ==> #[trigger] perm[k] != #[trigger] perm[l]
    &&& forall|k: int, l: int|
        0 <= k < l < s.len() && !sorts_before(#[trigger] s[k], #[trigger] s[l], sorting) && !sorts_before(s[l], s[k], sorting)
            ==> perm[k] < perm[l]
}

/// Sorts a listing: folders first, then by the chosen column, turned around
/// when `reverse` is set. The sort is stable: entries that sort alike keep
/// their order.
pub fn sort(files: &mut Vec<FileEntry>, sorting: &TabSorting)
    ensures
        final(files)@.to_multiset() == old(files)@.to_multiset(),
        listing_sorted(final(files)@, *sorting),
        exists|perm: Seq<int>| stable_arrangement(final(files)@, old(files)@, perm, *sorting),
{
    let mut out: Vec<FileEntry> = Vec::new();
    let ghost mut perm: Seq<int> = seq![];
    while files.len() > 0
        invariant
            files@.to_multiset().add(out@.to_multiset()) == old(files)@.to_multiset(),
            listing_sorted(out@, *sorting),
            files@ == old(files)@.take(files@.len() as int),
            files@.len() + out@.len() == old(files)@.len(),
            perm.len() == out@.len(),
            forall|k: int|
                0 <= k < perm.len() ==> files@.len() <= #[trigger] perm[k] < old(files)@.len() && out@[k]
                    == old(files)@[perm[k]],
            forall|k: int, l: int| 0 <= k < l < perm.len() ==> #[trigger] perm[k] != #[trigger] perm[l],
            forall|k: int, l: int|
                0 <= k < l < out@.len() && !sorts_before(#[trigger] out@[k], #[trigger] out@[l], *sorting)
                    && !sorts_before(out@[l], out@[k], *sorting) ==> perm[k] < perm[l],
        decreases files@.len(),
    {
        let ghost rest = files@;
        let e = files.pop().unwrap();
        let ghost f = files@.len() as int;
        proof {
            assert(rest =~= files@.push(e));
            assert(files@ =~= old(files)@.take(f));
            assert(e == old(files)@[f]);
        }
        let mut p: usize = 0;
        while p < out.len() && before(&out[p as usize], &e, sorting)
            invariant
                p <= out@.len(),
                forall|i: int| 0 <= i < p ==> sorts_before(#[trigger] out@[i], e, *sorting),
            decreases out@.len() - p,
        {
            p += 1;
        }
        let ghost prev = out@;
        let ghost prev_perm = perm;
        out.insert(p, e);
        proof {
            perm = prev_perm.insert(p as int, f);
            assert(out@.to_multiset() =~= prev.to_multiset().insert(e));
            assert(rest.to_multiset() =~= files@.to_multiset().insert(e));
            assert(files@.to_multiset().add(out@.to_multiset()) =~= rest.to_multiset().add(prev.to_multiset()));
            assert forall|i: int, j: int| 0 <= i < j < out@.len() implies !sorts_before(#[trigger] out@[j], #[trigger] out@[i], *sorting) by {
                if j < p {
                    assert(out@[i] == prev[i] && out@[j] == prev[j]);
                } else if j == p {
                    lemma_sorts_before_order(out@[i], e, e, *sorting);
                } else if i == p {
                    assert(out@[j] == prev[j - 1]);
                    lemma_sorts_before_order(prev[j - 1], prev[p as int], e, *sorting);
                    assert(!sorts_before(prev[p as int], e, *sorting));
                    if j - 1 > p {
                        assert(!sorts_before(prev[j - 1], prev[p as int], *sorting));
                    }
                } else if i < p {
                    assert(out@[i] == prev[i] && out@[j] == prev[j - 1]);
                } else {
                    assert(out@[i] == prev[i - 1] && out@[j] == prev[j - 1]);
                }
            }
            assert forall|k: int| 0 <= k < perm.len() implies files@.len() <= #[trigger] perm[k] < old(files)@.len()
                && out@[k] == old(files)@[perm[k]] by {
                if k < p {
                    assert(perm[k] == prev_perm[k]);
                } else if k > p {
                    assert(perm[k] == prev_perm[k - 1]);
                }
            }
            assert forall|k: int, l: int| 0 <= k < l < perm.len() implies #[trigger] perm[k] != #[trigger] perm[l] by {
                if k < p && l < p {
                    assert(perm[k] == prev_perm[k] && perm[l] == prev_perm[l]);
                } else if k < p && l > p {
                    assert(perm[k] == prev_perm[k] && perm[l] == prev_perm[l - 1]);
                } else if k > p {
                    assert(perm[k] == prev_perm[k - 1] && perm[l] == prev_perm[l - 1]);
                } else if k == p {
                    assert(perm[l] == prev_perm[l - 1]);
                } else {
                    assert(perm[k] == prev_perm[k]);
                }
            }
            assert forall|k: int, l: int|
                0 <= k < l < out@.len() && !sorts_before(#[trigger] out@[k], #[trigger] out@[l], *sorting)
                    && !sorts_before(out@[l], out@[k], *sorting) implies perm[k] < perm[l] by {
                if k < p && l < p {
                    assert(out@[k] == prev[k] && out@[l] == prev[l]);
                    assert(perm[k] == prev_perm[k] && perm[l] == prev_perm[l]);
                } else if k < p && l == p {
                    assert(sorts_before(out@[k], e, *sorting));
                } else if k < p {
                    assert(out@[k] == prev[k] && out@[l] == prev[l - 1]);
                    assert(perm[k] == prev_perm[k] && perm[l] == prev_perm[l - 1]);
                } else if k == p {
                    assert(perm[l] == prev_perm[l - 1]);
                } else {
                    assert(out@[k] == prev[k - 1] && out@[l] == prev[l - 1]);
                    assert(perm[k] == prev_perm[k - 1] && perm[l] == prev_perm[l - 1]);
                }
            }
        }
    }
    proof {
        assert(files@.to_multiset() =~= Multiset::empty());
        assert(stable_arrangement(out@, old(files)@, perm, *sorting));
    }
    *files = out;
}

} // verus!
