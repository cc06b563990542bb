//! Model files found under the models directory: which files count, how
//! each is described, and the order in which they are listed.

use vstd::prelude::*;
use crate::args::{file_stem_chars, spec_file_stem};
use crate::text::{chars_lt, chars_of, eq_lit, seq_lt, seq_lt_strict_total, string_of, sub_chars};

verus! {

broadcast use vstd::string::group_string_axioms;

/// A `.gguf` file under the models directory.
#[derive(Clone, Debug)]
pub struct ModelEntry {
    /// Absolute path to the .gguf file
    pub path: String,
    /// Path relative to models_dir (unique key for UI)
    pub relative_path: String,
    /// File stem used as display / alias base
    pub name: String,
    /// First path segment under models_dir (for submenu grouping)
    pub group: String,
}

/// The ASCII lower-case form of `c`.
pub open spec fn lower_ascii(c: char) -> char {
    if 'A' <= c && c <= 'Z' {
        ((c as int) + 32) as char
    } else {
        c
    }
}

/// Whether a file extension names a model file: `gguf` in any ASCII case.
pub open spec fn is_model_ext(e: Seq<char>) -> bool {
    e.map_values(|c: char| lower_ascii(c)) == "gguf"@
}

/// Whether a file with extension `ext` is a model file.
pub fn is_model_extension(ext: Option<&str>) -> (r: bool)
    ensures
        r == (ext matches Some(e) && is_model_ext(e@)),
{
    match ext {
        None => false,
        Some(e) => {
            let v = chars_of(e);
            let mut low: Vec<char> = Vec::new();
            let mut i: usize = 0;
            while i < v.len()
                invariant
                    i <= v.len(),
                    low@ == v@.take(i as int).map_values(|c: char| lower_ascii(c)),
                decreases v.len() - i,
            {
                let c = v[i];
                let l = if 'A' <= c && c <= 'Z' {
                    ((c as u32) + 32) as u8 as char
                } else {
                    c
                };
                low.push(l);
                assert(v@.take(i + 1).map_values(|c: char| lower_ascii(c)) =~= v@.take(
                    i as int,
                ).map_values(|c: char| lower_ascii(c)).push(lower_ascii(c)));
                i = i + 1;
            }
            assert(v@.take(v.len() as int) =~= v@);
            eq_lit(&low, "gguf")
        },
    }
}

/// `s` with every backslash turned into a slash.
pub open spec fn with_slashes(s: Seq<char>) -> Seq<char> {
    s.map_values(|c: char| if c == '\\' { '/' } else { c })
}

/// The index of the first `/` in `s` at `i` or after, or `-1`.
pub open spec fn first_slash_from(s: Seq<char>, i: int) -> int
    decreases s.len() - i,
{
    if i < 0 || i >= s.len() {
        -1
    } else if s[i] == '/' {
        i
    } else {
        first_slash_from(s, i + 1)
    }
}

/// The group of a relative path: its first segment when it has more than
/// one and the first is not empty, and `(root)` otherwise.
pub open spec fn group_of(rel: Seq<char>) -> Seq<char> {
    let k = first_slash_from(rel, 0);
    if k > 0 {
        rel.take(k)
    } else {
        "(root)"@
    }
}

proof fn lemma_first_slash(s: Seq<char>, i: int)
    requires
        0 <= i,
    ensures
        first_slash_from(s, i) == -1 || (i <= first_slash_from(s, i) < s.len() && s[first_slash_from(s, i)]
            == '/'),
        forall|j: int| i <= j < s.len() && (first_slash_from(s, i) == -1 || j < first_slash_from(s, i)) ==> #[trigger] s[j] != '/',
    decreases s.len() - i,
{
    if i < s.len() && s[i] != '/' {
        lemma_first_slash(s, i + 1);
    }
}

/// The group of a relative path is its first segment: where the first `/`
/// stands at index `k > 0`, the group is exactly the `k` characters before
/// it; a path without `/`, or one that starts with `/`, is in `(root)`. So
/// a group other than `(root)` is a non-empty prefix of the path without
/// `/`, followed in the path by a `/`.
pub proof fn group_is_first_segment(rel: Seq<char>)
    ensures
        forall|k: int|
            0 < k < rel.len() && #[trigger] rel[k] == '/' && (forall|j: int| 0 <= j < k ==> rel[j] != '/')
                ==> group_of(rel) == rel.take(k),
        !rel.contains('/') ==> group_of(rel) == "(root)"@,
        rel.len() > 0 && rel[0] == '/' ==> group_of(rel) == "(root)"@,
        group_of(rel) != "(root)"@ ==> {
            let g = group_of(rel);
            &&& 0 < g.len() < rel.len()
            &&& g == rel.take(g.len() as int)
            &&& !g.contains('/')
            &&& rel[g.len() as int] == '/'
        },
{
    lemma_first_slash(rel, 0);
    let k0 = first_slash_from(rel, 0);
    assert forall|k: int|
        0 < k < rel.len() && #[trigger] rel[k] == '/' && (forall|j: int| 0 <= j < k ==> rel[j] != '/')
            implies group_of(rel) == rel.take(k) by {
        if k0 == -1 {
            assert(rel[k] != '/');
        } else if k0 < k {
            assert(rel[k0] != '/');
        } else if k < k0 {
            assert(rel[k] != '/');
        }
    }
    if !rel.contains('/') && k0 != -1 {
        assert(rel.contains('/'));
    }
    if k0 > 0 {
        let g = rel.take(k0);
        assert forall|t: int| 0 <= t < g.len() implies g[t] != '/' by {
            assert(g[t] == rel[t]);
        }
    }
}

/// Describes the model file at `path`, whose path relative to the models
/// directory is `relative` and whose file name (as `Path::file_name` gives
/// it) is `file_name`.
pub fn model_entry(path: String, relative: &str, file_name: Option<String>) -> (r: ModelEntry)
    ensures
        r.path == path,
        r.relative_path@ == with_slashes(relative@),
        r.name@ == match file_name {
            Some(n) => spec_file_stem(n@),
            None => "model"@,
        },
        r.group@ == group_of(r.relative_path@),
{
    let v = chars_of(relative);
    let mut rel: Vec<char> = Vec::new();
    let mut i: usize = 0;
    while i < v.len()
        invariant
            i <= v.len(),
            rel@ == v@.take(i as int).map_values(|c: char| if c == '\\' { '/' } else { c }),
        decreases v.len() - i,
    {
        let c = v[i];
        rel.push(if c == '\\' { '/' } else { c });
        assert(v@.take(i + 1).map_values(|c: char| if c == '\\' { '/' } else { c }) =~= v@.take(
            i as int,
        ).map_values(|c: char| if c == '\\' { '/' } else { c }).push(if c == '\\' { '/' } else { c }));
        i = i + 1;
    }
    assert(v@.take(v.len() as int) =~= v@);
    let mut k: usize = 0;
    while k < rel.len() && rel[k] != '/'
        invariant
            k <= rel.len(),
            first_slash_from(rel@, 0) == first_slash_from(rel@, k as int),
        decreases rel.len() - k,
    {
        k = k + 1;
    }
    let group = if k < rel.len() && k > 0 {
        string_of(&sub_chars(&rel, 0, k))
    } else {
        "(root)".to_string()
    };
    let name = match file_name {
        Some(n) => {
            let nv = chars_of(n.as_str());
            string_of(&file_stem_chars(&nv))
        },
        None => "model".to_string(),
    };
    ModelEntry { path, relative_path: string_of(&rel), name, group }
}

/// Whether entry `a` is listed before entry `b`: by group, then by relative
/// path.
pub open spec fn entry_lt(a: ModelEntry, b: ModelEntry) -> bool {
    seq_lt(a.group@, b.group@) || (a.group@ == b.group@ && seq_lt(a.relative_path@, b.relative_path@))
}

/// Whether `s` is listed in order: no entry comes before an earlier one.
pub open spec fn entries_sorted(s: Seq<ModelEntry>) -> bool {
    forall|i: int, j: int| 0 <= i < j < s.len() ==> !entry_lt(#[trigger] s[j], #[trigger] s[i])
}

proof fn lemma_entry_order(a: ModelEntry, b: ModelEntry, c: ModelEntry)
    ensures
        !(entry_lt(a, b) && entry_lt(b, a)),
        entry_lt(a, b) && !entry_lt(c, b) ==> entry_lt(a, c),
{
    seq_lt_strict_total(a.group@, b.group@, c.group@);
    seq_lt_strict_total(b.group@, c.group@, a.group@);
    seq_lt_strict_total(c.group@, a.group@, b.group@);
    seq_lt_strict_total(a.relative_path@, b.relative_path@, c.relative_path@);
    seq_lt_strict_total(b.relative_path@, c.relative_path@, a.relative_path@);
    seq_lt_strict_total(c.relative_path@, a.relative_path@, b.relative_path@);
    seq_lt_strict_total(b.group@, a.group@, c.group@);
    seq_lt_strict_total(b.relative_path@, a.relative_path@, c.relative_path@);
    seq_lt_strict_total(a.group@, c.group@, b.group@);
    seq_lt_strict_total(a.relative_path@, c.relative_path@, b.relative_path@);
}

fn entry_before(a: &ModelEntry, b: &ModelEntry) -> (r: bool)
    ensures
        r == entry_lt(*a, *b),
{
    let ag = chars_of(a.group.as_str());
    let bg = chars_of(b.group.as_str());
    if chars_lt(&ag, &bg) {
        return true;
    }
    if a.group != b.group {
        return false;
    }
    let ar = chars_of(a.relative_path.as_str());
    let br = chars_of(b.relative_path.as_str());
    chars_lt(&ar, &br)
}

/// Whether two entries have the same sort key: the same group and the
/// same relative path.
pub open spec fn same_key(a: ModelEntry, b: ModelEntry) -> bool {
    a.group@ == b.group@ && a.relative_path@ == b.relative_path@
}

/// Whether `r` is `s` rearranged by `p`: `r[i]` is `s[p[i]]`, each position
/// of `s` used once, and entries with the same sort key keep their order.
pub open spec fn stable_rearrangement(s: Seq<ModelEntry>, r: Seq<ModelEntry>, p: Seq<int>) -> bool {
    &&& p.len() == s.len()
    &&& r.len() == s.len()
    &&& forall|i: int| 0 <= i < p.len() ==> 0 <= #[trigger] p[i] < s.len() && r[i] == s[p[i]]
    &&& forall|i: int, j: int| 0 <= i < j < p.len() ==> #[trigger] p[i] != #[trigger] p[j]
    &&& forall|i: int, j: int|
        0 <= i < j < p.len() && same_key(#[trigger] r[i], #[trigger] r[j]) ==> p[i] < p[j]
}

/// Whether `r` is a stable sort of `s`: `s` rearranged into order, with
/// entries of the same sort key in their order in `s`.
pub open spec fn stable_sort_of(s: Seq<ModelEntry>, r: Seq<ModelEntry>) -> bool {
    entries_sorted(r) && exists|p: Seq<int>| stable_rearrangement(s, r, p)
}

/// Sorts the entries by group, then by relative path, keeping entries with
/// the same group and relative path in their order.
pub fn sort_models(entries: &mut Vec<ModelEntry>)
    ensures
        stable_sort_of(old(entries)@, final(entries)@),
        final(entries)@.to_multiset() == old(entries)@.to_multiset(),
{
    broadcast use vstd::seq_lib::group_to_multiset_ensures, vstd::multiset::group_multiset_axioms;

    let mut rest: Vec<ModelEntry> = Vec::new();
    std::mem::swap(&mut rest, entries);
    let ghost orig = rest@;
    let mut out: Vec<ModelEntry> = Vec::new();
    let ghost mut idx: Seq<int> = seq![];
    let ghost mut m: int = 0;
    assert(orig.skip(0) =~= orig);
    while rest.len() > 0
        invariant
            entries_sorted(out@),
            out@.to_multiset().add(rest@.to_multiset()) == orig.to_multiset(),
            0 <= m <= orig.len(),
            rest@ == orig.skip(m),
            out@.len() == m,
            idx.len() == m,
            forall|k: int| 0 <= k < m ==> 0 <= #[trigger] idx[k] < m && out@[k] == orig[idx[k]],
            forall|i: int, j: int| 0 <= i < j < m ==> #[trigger] idx[i] != #[trigger] idx[j],
            forall|i: int, j: int|
                0 <= i < j < m && same_key(#[trigger] out@[i], #[trigger] out@[j]) ==> idx[i] < idx[j],
        decreases rest.len(),
    {
        let ghost rest0 = rest@;
        let x = rest.remove(0);
        proof {
            vstd::seq_lib::to_multiset_remove(rest0, 0);
            assert(rest0.to_multiset().count(x) > 0) by {
                vstd::seq_lib::to_multiset_contains(rest0, x);
            }
            assert(x == orig[m]);
            assert(rest@ =~= orig.skip(m + 1));
        }
        let mut pos: usize = 0;
        while pos < out.len() && !entry_before(&x, &out[pos])
            invariant
                pos <= out.len(),
                forall|k: int| 0 <= k < pos ==> !entry_lt(x, #[trigger] out@[k]),
            decreases out.len() - pos,
        {
            pos = pos + 1;
        }
        let ghost before = out@;
        let ghost idx0 = idx;
        out.insert(pos, x);
        proof {
            idx = idx0.insert(pos as int, m);
            vstd::seq_lib::to_multiset_insert(before, pos as int, x);
            assert forall|i: int, j: int| 0 <= i < j < out@.len() implies !entry_lt(
                #[trigger] out@[j],
                #[trigger] out@[i],
            ) by {
                if j < pos {
                    assert(out@[i] == before[i] && out@[j] == before[j]);
                } else if j == pos {
                    assert(out@[i] == before[i]);
                    lemma_entry_order(x, before[i], x);
                } else if i < pos {
                    assert(out@[i] == before[i] && out@[j] == before[j - 1]);
                    assert(!entry_lt(before[j - 1], before[i]));
                } else if i == pos {
                    // x comes before before[pos], which does not come after before[j - 1]
                    assert(out@[j] == before[j - 1]);
                    assert(pos < before.len());
                    assert(entry_lt(x, before[pos as int]));
                    if j - 1 > pos {
                        assert(!entry_lt(before[j - 1], before[pos as int]));
                    }
                    lemma_entry_order(x, before[pos as int], before[j - 1]);
                    lemma_entry_order(x, before[j - 1], x);
                } else {
                    assert(out@[i] == before[i - 1] && out@[j] == before[j - 1]);
                }
            }
            assert(out@.to_multiset().add(rest@.to_multiset()) =~= orig.to_multiset());
            assert forall|k: int| 0 <= k < m + 1 implies 0 <= #[trigger] idx[k] < m + 1 && out@[k]
                == orig[idx[k]] by {
                if k < pos {
                    assert(idx[k] == idx0[k] && out@[k] == before[k]);
                } else if k > pos {
                    assert(idx[k] == idx0[k - 1] && out@[k] == before[k - 1]);
                }
            }
            assert forall|i: int, j: int| 0 <= i < j < m + 1 implies #[trigger] idx[i]
                != #[trigger] idx[j] by {
                if i < pos && j < pos {
                    assert(idx[i] == idx0[i] && idx[j] == idx0[j]);
                } else if i < pos && j == pos {
                    assert(idx[i] == idx0[i]);
                } else if i < pos {
                    assert(idx[i] == idx0[i] && idx[j] == idx0[j - 1]);
                } else if i == pos {
                    assert(idx[j] == idx0[j - 1]);
                } else {
                    assert(idx[i] == idx0[i - 1] && idx[j] == idx0[j - 1]);
                }
            }
            assert forall|i: int, j: int|
                0 <= i < j < m + 1 && same_key(#[trigger] out@[i], #[trigger] out@[j]) implies idx[i]
                < idx[j] by {
                if i < pos && j < pos {
                    assert(idx[i] == idx0[i] && idx[j] == idx0[j]);
                    assert(out@[i] == before[i] && out@[j] == before[j]);
                } else if i < pos && j == pos {
                    assert(idx[i] == idx0[i]);
                } else if i < pos {
                    assert(idx[i] == idx0[i] && idx[j] == idx0[j - 1]);
                    assert(out@[i] == before[i] && out@[j] == before[j - 1]);
                } else if i == pos {
                    assert(out@[j] == before[j - 1]);
                    assert(entry_lt(x, before[pos as int]));
                    if j - 1 > pos {
                        assert(!entry_lt(before[j - 1], before[pos as int]));
                    }
                    lemma_entry_order(x, before[pos as int], before[j - 1]);
                    lemma_entry_order(x, x, x);
                    assert(entry_lt(x, before[j - 1]));
                    assert(entry_lt(x, before[j - 1]) == entry_lt(x, x));
                } else {
                    assert(idx[i] == idx0[i - 1] && idx[j] == idx0[j - 1]);
                    assert(out@[i] == before[i - 1] && out@[j] == before[j - 1]);
                }
            }
            m = m + 1;
        }
    }
    proof {
        assert(stable_rearrangement(orig, out@, idx));
    }
    *entries = out;
}

/// A file met while walking the models directory, as the walk gives it.
#[derive(Clone, Debug)]
pub struct WalkedFile {
    /// The file's path, as text.
    pub path: String,
    /// Its path below the models directory, as text.
    pub relative: String,
    /// Whether it is a regular file (after following links).
    pub is_file: bool,
    /// Its extension, where it has one that is valid text.
    pub extension: Option<String>,
    /// Its file name, where that is valid text.
    pub file_name: Option<String>,
}

/// Whether a walked file is a model file: a regular file with a `.gguf`
/// extension in any ASCII case.
pub open spec fn is_model_file(f: WalkedFile) -> bool {
    f.is_file && (f.extension matches Some(e) && is_model_ext(e@))
}

/// Whether `e` is the entry that describes the model file `f`.
pub open spec fn describes(f: WalkedFile, e: ModelEntry) -> bool {
    &&& e.path == f.path
    &&& e.relative_path@ == with_slashes(f.relative@)
    &&& e.name@ == match f.file_name {
        Some(n) => spec_file_stem(n@),
        None => "model"@,
    }
    &&& e.group@ == group_of(e.relative_path@)
}

/// The model files among the walked files, in walk order.
pub open spec fn model_files(walked: Seq<WalkedFile>) -> Seq<WalkedFile> {
    walked.filter(|f: WalkedFile| is_model_file(f))
}

/// Whether `u` describes the model files among `walked`, one entry each,
/// in walk order.
pub open spec fn lists_model_files(walked: Seq<WalkedFile>, u: Seq<ModelEntry>) -> bool {
    &&& u.len() == model_files(walked).len()
    &&& forall|i: int| 0 <= i < u.len() ==> describes(#[trigger] model_files(walked)[i], u[i])
}

/// The entries for the model files among `walked`, in walk order.
pub fn model_entries(walked: &Vec<WalkedFile>) -> (r: Vec<ModelEntry>)
    ensures
        lists_model_files(walked@, r@),
{
    let mut out: Vec<ModelEntry> = Vec::new();
    let mut i: usize = 0;
    proof {
        reveal(Seq::filter);
        assert(walked@.take(0) =~= Seq::<WalkedFile>::empty());
    }
    while i < walked.len()
        invariant
            i <= walked.len(),
            lists_model_files(walked@.take(i as int), out@),
        decreases walked.len() - i,
    {
        let f = &walked[i];
        let ghost prev = walked@.take(i as int);
        let ghost next = walked@.take(i + 1);
        proof {
            reveal(Seq::filter);
            assert(next.drop_last() =~= prev);
            assert(next.last() == *f);
        }
        let ext = match &f.extension {
            Some(e) => Some(e.as_str()),
            None => None,
        };
        if f.is_file && is_model_extension(ext) {
            let ghost out0 = out@;
            let e = model_entry(f.path.clone(), f.relative.as_str(), copy_name(&f.file_name));
            out.push(e);
            proof {
                assert(model_files(next) == model_files(prev).push(*f));
                assert forall|k: int| 0 <= k < out@.len() implies describes(
                    #[trigger] model_files(next)[k],
                    out@[k],
                ) by {
                    if k < out0.len() {
                        assert(out@[k] == out0[k]);
                        assert(model_files(next)[k] == model_files(prev)[k]);
                    }
                }
            }
        } else {
            proof {
                assert(model_files(next) == model_files(prev));
            }
        }
        i = i + 1;
    }
    proof {
        assert(walked@.take(walked@.len() as int) =~= walked@);
    }
    out
}

fn copy_name(o: &Option<String>) -> (r: Option<String>)
    ensures
        r == *o,
{
    match o {
        Some(s) => Some(s.clone()),
        None => None,
    }
}

/// The model list of a walk of the models directory: an entry for each
/// model file, sorted by group and then by relative path, entries with the
/// same group and relative path in walk order.
pub fn entries_from_walk(walked: &Vec<WalkedFile>) -> (r: Vec<ModelEntry>)
    ensures
        exists|u: Seq<ModelEntry>| lists_model_files(walked@, u) && #[trigger] stable_sort_of(u, r@),
{
    let mut entries = model_entries(walked);
    let ghost u = entries@;
    sort_models(&mut entries);
    assert(stable_sort_of(u, entries@));
    entries
}

} // verus!
