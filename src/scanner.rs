//! Discovering resources in a listing of the resource root, and the ordered
//! snapshot of their files.
use vstd::prelude::*;
use crate::detector::{is_script_file_name, is_script_name};
use crate::protocol::InitialData;
use crate::text::str_eq;
use crate::order::{
    file_lt, file_lt_exec, file_order, is_strict_order, lemma_file_order, lemma_insert_sorted,
    lemma_name_order, lemma_sorted_unique, name_lt, name_lt_exec, name_order, strictly_sorted,
};

verus! {

/// A snapshot model: each resource name with its files.
pub type SnapshotModel = Seq<(Seq<char>, Seq<Seq<char>>)>;

pub open spec fn snapshot_names(s: SnapshotModel) -> Seq<Seq<char>> {
    s.map_values(|e: (Seq<char>, Seq<Seq<char>>)| e.0)
}

/// Names strictly in `name_lt` order; each file list non-empty and strictly in
/// `file_lt` order.
pub open spec fn is_canonical(s: SnapshotModel) -> bool {
    &&& strictly_sorted(snapshot_names(s), name_order())
    &&& forall|i: int| 0 <= i < s.len() ==> (#[trigger] s[i]).1.len() > 0 && strictly_sorted(s[i].1, file_order())
}

/// The snapshot lists file `f` under resource `n`.
pub open spec fn snapshot_has(s: SnapshotModel, n: Seq<char>, f: Seq<char>) -> bool {
    exists|i: int| 0 <= i < s.len() && (#[trigger] s[i]).0 == n && s[i].1.contains(f)
}

/// Adds `f` to a strictly sorted file list, unless it is there already.
fn insert_file(files: &mut Vec<String>, f: String)
    requires
        strictly_sorted(old(files).deep_view(), file_order()),
    ensures
        strictly_sorted(final(files).deep_view(), file_order()),
        final(files).len() > 0,
        forall|x: Seq<char>| #[trigger] final(files).deep_view().contains(x) <==> (old(files).deep_view().contains(x) || x == f@),
{
    proof {
        lemma_file_order();
    }
    let ghost s = files.deep_view();
    let mut i: usize = 0;
    while i < files.len() && file_lt_exec(files[i].as_str(), f.as_str())
        invariant
            i <= files.len(),
            s == files.deep_view(),
            is_strict_order(file_order()),
            strictly_sorted(s, file_order()),
            forall|k: int| 0 <= k < i ==> file_lt(#[trigger] s[k], f@),
        decreases files.len() - i,
    {
        i = i + 1;
    }
    if i < files.len() && files[i] == f {
        assert(s.contains(f@)) by {
            assert(s[i as int] == f@);
        }
        return;
    }
    proof {
        if i < s.len() {
            assert(s[i as int] != f@);
            assert(!file_lt(s[i as int], f@));
            assert(file_order()(f@, s[i as int]) || file_order()(s[i as int], f@));
        }
        lemma_insert_sorted(s, i as int, f@, file_order());
    }
    files.insert(i, f);
    proof {
        assert(files.deep_view() =~= s.insert(i as int, f@));
        let t = s.insert(i as int, f@);
        assert forall|x: Seq<char>| #[trigger] t.contains(x) <==> (s.contains(x) || x == f@) by {
            if t.contains(x) {
                let j = choose|j: int| 0 <= j < t.len() && t[j] == x;
                if j < i {
                    assert(s[j] == x);
                } else if j > i {
                    assert(s[j - 1] == x);
                }
            }
            if s.contains(x) {
                let j = choose|j: int| 0 <= j < s.len() && s[j] == x;
                if j < i {
                    assert(t[j] == x);
                } else {
                    assert(t[j + 1] == x);
                }
            }
            if x == f@ {
                assert(t[i as int] == x);
            }
        }
    }
}


/// Adds file `f` under resource `n`, keeping the snapshot canonical.
fn add_pair(out: &mut Vec<(String, Vec<String>)>, n: String, f: String)
    requires
        is_canonical(old(out).deep_view()),
    ensures
        is_canonical(final(out).deep_view()),
        forall|x: Seq<char>, y: Seq<char>|
            #[trigger] snapshot_has(final(out).deep_view(), x, y) <==> (snapshot_has(old(out).deep_view(), x, y) || (x == n@ && y == f@)),
{
    proof {
        lemma_name_order();
        lemma_file_order();
    }
    let ghost s = out.deep_view();
    let ghost names = snapshot_names(s);
    let mut i: usize = 0;
    while i < out.len() && name_lt_exec(out[i].0.as_str(), n.as_str())
        invariant
            i <= out.len(),
            s == out.deep_view(),
            names == snapshot_names(s),
            is_strict_order(name_order()),
            forall|k: int| 0 <= k < i ==> name_lt(#[trigger] s[k].0, n@),
        decreases out.len() - i,
    {
        i = i + 1;
    }
    if i < out.len() && out[i].0 == n {
        let (name, mut files) = out.remove(i);
        assert(files.deep_view() == s[i as int].1);
        insert_file(&mut files, f);
        let ghost fv = files.deep_view();
        out.insert(i, (name, files));
        proof {
            let t = out.deep_view();
            assert(t =~= s.update(i as int, (n@, fv)));
            assert(snapshot_names(t) =~= names);
            assert forall|x: Seq<char>, y: Seq<char>|
                #[trigger] snapshot_has(t, x, y) <==> (snapshot_has(s, x, y) || (x == n@ && y == f@)) by {
                if snapshot_has(t, x, y) {
                    let j = choose|j: int| 0 <= j < t.len() && (#[trigger] t[j]).0 == x && t[j].1.contains(y);
                    if j != i {
                        assert(s[j].0 == x && s[j].1.contains(y));
                    } else if y != f@ {
                        assert(s[j].0 == x && s[j].1.contains(y));
                    }
                }
                if snapshot_has(s, x, y) {
                    let j = choose|j: int| 0 <= j < s.len() && (#[trigger] s[j]).0 == x && s[j].1.contains(y);
                    assert(t[j].0 == x && t[j].1.contains(y));
                }
                if x == n@ && y == f@ {
                    assert(t[i as int].0 == x && t[i as int].1.contains(y));
                }
            }
        }
    } else {
        let ghost entry = (n@, seq![f@]);
        let mut files: Vec<String> = Vec::new();
        files.push(f);
        assert(files.deep_view() =~= seq![f@]);
        out.insert(i, (n, files));
        proof {
            let t = out.deep_view();
            assert(t =~= s.insert(i as int, entry));
            if i < s.len() {
                assert(names[i as int] != n@);
                assert(!name_lt(names[i as int], n@));
                assert(name_order()(n@, names[i as int]) || name_order()(names[i as int], n@));
            }
            assert forall|k: int| 0 <= k < i implies name_order()(#[trigger] names[k], n@) by {
                assert(name_lt(s[k].0, n@));
            }
            lemma_insert_sorted(names, i as int, n@, name_order());
            assert(snapshot_names(t) =~= names.insert(i as int, n@));
            assert(strictly_sorted(seq![f@], file_order()));
            assert forall|j: int| 0 <= j < t.len() implies (#[trigger] t[j]).1.len() > 0 && strictly_sorted(
                t[j].1,
                file_order(),
            ) by {
                if j < i {
                    assert(t[j] == s[j]);
                } else if j > i {
                    assert(t[j] == s[j - 1]);
                }
            }
            assert forall|x: Seq<char>, y: Seq<char>|
                #[trigger] snapshot_has(t, x, y) <==> (snapshot_has(s, x, y) || (x == n@ && y == f@)) by {
                if snapshot_has(t, x, y) {
                    let j = choose|j: int| 0 <= j < t.len() && (#[trigger] t[j]).0 == x && t[j].1.contains(y);
                    if j < i {
                        assert(s[j].0 == x && s[j].1.contains(y));
                    } else if j > i {
                        assert(s[j - 1].0 == x && s[j - 1].1.contains(y));
                    } else {
                        assert(t[j].1 == seq![f@]);
                    }
                }
                if snapshot_has(s, x, y) {
                    let j = choose|j: int| 0 <= j < s.len() && (#[trigger] s[j]).0 == x && s[j].1.contains(y);
                    if j < i {
                        assert(t[j].0 == x && t[j].1.contains(y));
                    } else {
                        assert(t[j + 1].0 == x && t[j + 1].1.contains(y));
                    }
                }
                if x == n@ && y == f@ {
                    assert(t[i as int].1[0] == y);
                    assert(t[i as int].0 == x && t[i as int].1.contains(y));
                }
            }
        }
    }
}


/// One entry of a walk of the resource root: its path as components, the
/// root's own name first, and whether it is a directory.
#[derive(Clone, Debug)]
pub struct ScanEntry {
    pub parts: Vec<String>,
    pub is_dir: bool,
}

impl ScanEntry {
    pub open spec fn view(&self) -> (Seq<Seq<char>>, bool) {
        (self.parts.deep_view(), self.is_dir)
    }
}

/// A listing as (components, is a directory) pairs.
pub type ListingModel = Seq<(Seq<Seq<char>>, bool)>;

pub open spec fn listing_view(l: Seq<ScanEntry>) -> ListingModel {
    l.map_values(|e: ScanEntry| e@)
}

/// Directory names that are never descended into.
pub open spec fn is_ignored_dir_name(n: Seq<char>) -> bool {
    ||| n == "node_modules"@
    ||| n == ".git"@
    ||| n == "target"@
    ||| n == ".idea"@
    ||| n == ".vscode"@
    ||| n == "vendor"@
    ||| n == "tmp"@
    ||| n == "temp"@
    ||| n == "logs"@
    ||| n == "coverage"@
    ||| n == ".next"@
    ||| n == ".nuxt"@
    ||| n == ".cache"@
}

/// File names that are never part of a resource's files.
pub open spec fn is_ignored_file_name(n: Seq<char>) -> bool {
    ||| n == "package-lock.json"@
    ||| n == "yarn.lock"@
    ||| n == "pnpm-lock.yaml"@
    ||| n == "README.md"@
    ||| n == "LICENSE"@
    ||| n == ".gitignore"@
    ||| n == ".env"@
    ||| n == "tsconfig.json"@
    ||| n == "package.json"@
    ||| n == "webpack.config.js"@
}

/// The walk skips entries of this name, and everything below them.
pub open spec fn is_pruned_name(n: Seq<char>) -> bool {
    is_ignored_dir_name(n) || (n.len() > 0 && n[0] == '.')
}

/// No component of the path is pruned.
pub open spec fn is_visible(parts: Seq<Seq<char>>) -> bool {
    forall|k: int| 0 <= k < parts.len() ==> !is_pruned_name(#[trigger] parts[k])
}

/// The file names that mark a directory as a resource.
pub open spec fn is_manifest_name(n: Seq<char>) -> bool {
    n == "fxmanifest.lua"@ || n == "__resource.lua"@
}

/// `c` lies strictly below `d`.
pub open spec fn is_below(c: Seq<Seq<char>>, d: Seq<Seq<char>>) -> bool {
    c.len() > d.len() && c.take(d.len() as int) == d
}

/// Entry `d` is a visible directory with a manifest file directly inside.
pub open spec fn is_resource_dir(l: ListingModel, d: int) -> bool {
    &&& 0 <= d < l.len()
    &&& l[d].1
    &&& l[d].0.len() > 0
    &&& is_visible(l[d].0)
    &&& exists|e: int|
        0 <= e < l.len() && #[trigger] is_below(l[e].0, l[d].0) && l[e].0.len() == l[d].0.len() + 1
            && is_manifest_name(l[e].0.last())
}

/// A file name that a resource lists: a script extension, not ignored.
pub open spec fn is_wanted_file_name(n: Seq<char>) -> bool {
    !is_ignored_file_name(n) && is_script_name(n)
}

/// Entry `e` is a visible, wanted file below resource directory `d`.
pub open spec fn is_file_of(l: ListingModel, d: int, e: int) -> bool {
    &&& is_resource_dir(l, d)
    &&& 0 <= e < l.len()
    &&& !l[e].1
    &&& is_visible(l[e].0)
    &&& is_below(l[e].0, l[d].0)
    &&& is_wanted_file_name(l[e].0.last())
}

/// `parts` separated by `/`.
pub open spec fn slash_joined(parts: Seq<Seq<char>>) -> Seq<char>
    decreases parts.len(),
{
    if parts.len() == 0 {
        Seq::empty()
    } else if parts.len() == 1 {
        parts[0]
    } else {
        slash_joined(parts.drop_last()) + "/"@ + parts.last()
    }
}

/// The resource name and relative path that file `e` of resource `d` adds.
pub open spec fn pair_of(l: ListingModel, d: int, e: int) -> (Seq<char>, Seq<char>) {
    (l[d].0.last(), slash_joined(l[e].0.skip(l[d].0.len() as int)))
}

/// The listing holds file `f` of a resource named `n`.
pub open spec fn listing_has(l: ListingModel, n: Seq<char>, f: Seq<char>) -> bool {
    exists|d: int, e: int| #[trigger] is_file_of(l, d, e) && pair_of(l, d, e) == (n, f)
}

/// Whether the walk skips an entry of this name, and everything below it.
pub fn is_pruned_entry_name(n: &str) -> (r: bool)
    ensures
        r == is_pruned_name(n@),
{
    if n.unicode_len() > 0 && n.get_char(0) == '.' {
        return true;
    }
    str_eq(n, "node_modules") || str_eq(n, ".git") || str_eq(n, "target") || str_eq(n, ".idea")
        || str_eq(n, ".vscode") || str_eq(n, "vendor") || str_eq(n, "tmp") || str_eq(n, "temp")
        || str_eq(n, "logs") || str_eq(n, "coverage") || str_eq(n, ".next") || str_eq(n, ".nuxt")
        || str_eq(n, ".cache")
}

/// Whether a resource lists a file of this name.
pub fn is_wanted_file(n: &str) -> (r: bool)
    ensures
        r == is_wanted_file_name(n@),
{
    let ignored = str_eq(n, "package-lock.json") || str_eq(n, "yarn.lock") || str_eq(n, "pnpm-lock.yaml")
        || str_eq(n, "README.md") || str_eq(n, "LICENSE") || str_eq(n, ".gitignore") || str_eq(n, ".env")
        || str_eq(n, "tsconfig.json") || str_eq(n, "package.json") || str_eq(n, "webpack.config.js");
    !ignored && is_script_file_name(n)
}

fn is_visible_exec(parts: &Vec<String>) -> (r: bool)
    ensures
        r == is_visible(parts.deep_view()),
{
    let ghost v = parts.deep_view();
    let mut k: usize = 0;
    while k < parts.len()
        invariant
            k <= parts.len(),
            v == parts.deep_view(),
            forall|j: int| 0 <= j < k ==> !is_pruned_name(#[trigger] v[j]),
        decreases parts.len() - k,
    {
        if is_pruned_entry_name(parts[k].as_str()) {
            assert(is_pruned_name(v[k as int]));
            return false;
        }
        k = k + 1;
    }
    true
}

fn is_below_exec(c: &Vec<String>, d: &Vec<String>) -> (r: bool)
    ensures
        r == is_below(c.deep_view(), d.deep_view()),
{
    if c.len() <= d.len() {
        return false;
    }
    let ghost cv = c.deep_view();
    let ghost dv = d.deep_view();
    let mut k: usize = 0;
    while k < d.len()
        invariant
            k <= d.len() < c.len(),
            cv == c.deep_view(),
            dv == d.deep_view(),
            cv.take(k as int) == dv.take(k as int),
        decreases d.len() - k,
    {
        if c[k] != d[k] {
            assert(cv.take(d.len() as int)[k as int] != dv[k as int]);
            return false;
        }
        assert(cv.take(k + 1) =~= cv.take(k as int).push(cv[k as int]));
        assert(dv.take(k + 1) =~= dv.take(k as int).push(dv[k as int]));
        k = k + 1;
    }
    assert(dv.take(d.len() as int) =~= dv);
    true
}

fn is_manifest_exec(n: &str) -> (r: bool)
    ensures
        r == is_manifest_name(n@),
{
    str_eq(n, "fxmanifest.lua") || str_eq(n, "__resource.lua")
}

/// Whether entry `d` of the listing is a resource directory.
fn is_resource_dir_exec(l: &Vec<ScanEntry>, d: usize) -> (r: bool)
    requires
        d < l.len(),
    ensures
        r == is_resource_dir(listing_view(l@), d as int),
{
    let ghost lv = listing_view(l@);
    let dir = &l[d];
    assert(lv[d as int] == dir@);
    if !dir.is_dir || dir.parts.len() == 0 || !is_visible_exec(&dir.parts) {
        return false;
    }
    let mut e: usize = 0;
    while e < l.len()
        invariant
            e <= l.len(),
            d < l.len(),
            lv == listing_view(l@),
            dir == &l[d as int],
            lv[d as int] == dir@,
            lv[d as int].1,
            lv[d as int].0.len() > 0,
            is_visible(lv[d as int].0),
            forall|j: int|
                0 <= j < e ==> !(#[trigger] is_below(lv[j].0, lv[d as int].0) && lv[j].0.len() == lv[d as int].0.len() + 1
                    && is_manifest_name(lv[j].0.last())),
        decreases l.len() - e,
    {
        let c = &l[e];
        assert(lv[e as int] == c@);
        if c.parts.len() > dir.parts.len() && c.parts.len() - 1 == dir.parts.len() && is_below_exec(
            &c.parts,
            &dir.parts,
        ) && is_manifest_exec(c.parts[c.parts.len() - 1].as_str()) {
            assert(lv[e as int].0.last() == c.parts[c.parts.len() - 1]@);
            assert(is_below(lv[e as int].0, lv[d as int].0));
            return true;
        }
        e = e + 1;
    }
    false
}


proof fn lemma_slash_joined_step(parts: Seq<Seq<char>>, i: int)
    requires
        0 <= i < parts.len(),
    ensures
        slash_joined(parts.take(i + 1)) == slash_joined(parts.take(i)) + (if i == 0 {
            Seq::<char>::empty()
        } else {
            "/"@
        }) + parts[i],
{
    assert(parts.take(i + 1).drop_last() =~= parts.take(i));
    if i == 0 {
        assert(slash_joined(parts.take(0)) =~= Seq::<char>::empty());
        assert(Seq::<char>::empty() + Seq::<char>::empty() + parts[0] =~= parts[0]);
    }
}

/// The components of `parts` from index `from` on, separated by `/`.
fn join_from(parts: &Vec<String>, from: usize) -> (r: String)
    requires
        from <= parts.len(),
    ensures
        r@ == slash_joined(parts.deep_view().skip(from as int)),
{
    let ghost rest = parts.deep_view().skip(from as int);
    let mut out = String::new();
    let mut k: usize = from;
    assert(rest.take(0) =~= Seq::<Seq<char>>::empty());
    assert(out@ =~= slash_joined(rest.take(0)));
    while k < parts.len()
        invariant
            from <= k <= parts.len(),
            rest == parts.deep_view().skip(from as int),
            out@ == slash_joined(rest.take(k - from)),
        decreases parts.len() - k,
    {
        proof {
            lemma_slash_joined_step(rest, k - from);
        }
        if k > from {
            out.append("/");
        }
        out.append(parts[k].as_str());
        proof {
            assert(rest[k - from] == parts[k as int]@);
            assert(out@ =~= slash_joined(rest.take(k + 1 - from)));
        }
        k = k + 1;
    }
    assert(rest.take(parts.len() - from) =~= rest);
    out
}

/// Some file `e2` of resource `d2`, with (`d2`, `e2`) before (`d`, `e`), adds (`x`, `y`).
pub open spec fn added_before(l: ListingModel, d: int, e: int, x: Seq<char>, y: Seq<char>) -> bool {
    exists|d2: int, e2: int|
        #[trigger] is_file_of(l, d2, e2) && pair_of(l, d2, e2) == (x, y) && (d2 < d || (d2 == d && e2 < e))
}

/// `s` is a snapshot of listing `l`: canonical, and it lists exactly the files
/// of the listing's resources.
pub open spec fn is_snapshot_of(s: SnapshotModel, l: ListingModel) -> bool {
    &&& is_canonical(s)
    &&& forall|x: Seq<char>, y: Seq<char>| #[trigger] snapshot_has(s, x, y) <==> listing_has(l, x, y)
}

/// The resources of a listing, each with its files, in snapshot order.
/// Resources of the same name (in different category folders) share one
/// entry, which lists the files of all of them.
pub fn scan_listing(l: &Vec<ScanEntry>) -> (r: Vec<(String, Vec<String>)>)
    ensures
        is_snapshot_of(r.deep_view(), listing_view(l@)),
{
    let ghost lv = listing_view(l@);
    let mut out: Vec<(String, Vec<String>)> = Vec::new();
    proof {
        let s = out.deep_view();
        assert(s =~= Seq::<(Seq<char>, Seq<Seq<char>>)>::empty());
        assert(snapshot_names(s) =~= Seq::<Seq<char>>::empty());
    }
    let mut d: usize = 0;
    while d < l.len()
        invariant
            d <= l.len(),
            lv == listing_view(l@),
            is_canonical(out.deep_view()),
            forall|x: Seq<char>, y: Seq<char>|
                #[trigger] snapshot_has(out.deep_view(), x, y) <==> added_before(lv, d as int, 0, x, y),
        decreases l.len() - d,
    {
        if is_resource_dir_exec(l, d) {
            let dir = &l[d];
            assert(lv[d as int] == dir@);
            let n = dir.parts.len();
            let mut e: usize = 0;
            while e < l.len()
                invariant
                    e <= l.len(),
                    d < l.len(),
                    lv == listing_view(l@),
                    dir == &l[d as int],
                    lv[d as int] == dir@,
                    n == dir.parts.len(),
                    n > 0,
                    is_resource_dir(lv, d as int),
                    is_canonical(out.deep_view()),
                    forall|x: Seq<char>, y: Seq<char>|
                        #[trigger] snapshot_has(out.deep_view(), x, y) <==> added_before(lv, d as int, e as int, x, y),
                decreases l.len() - e,
            {
                let f = &l[e];
                assert(lv[e as int] == f@);
                let ghost before = out.deep_view();
                if !f.is_dir && f.parts.len() > n && is_visible_exec(&f.parts) && is_below_exec(
                    &f.parts,
                    &dir.parts,
                ) && is_wanted_file(f.parts[f.parts.len() - 1].as_str()) {
                    assert(is_file_of(lv, d as int, e as int));
                    let name = dir.parts[n - 1].clone();
                    let rel = join_from(&f.parts, n);
                    let ghost p = pair_of(lv, d as int, e as int);
                    assert(p == (name@, rel@));
                    add_pair(&mut out, name, rel);
                    proof {
                        assert forall|x: Seq<char>, y: Seq<char>|
                            #[trigger] snapshot_has(out.deep_view(), x, y) <==> added_before(lv, d as int, e + 1, x, y) by {
                            if added_before(lv, d as int, e + 1, x, y) && !(x == p.0 && y == p.1) {
                                let (d2, e2) = choose|d2: int, e2: int|
                                    #[trigger] is_file_of(lv, d2, e2) && pair_of(lv, d2, e2) == (x, y) && (d2 < d || (d2 == d
                                        && e2 < e + 1));
                                assert(added_before(lv, d as int, e as int, x, y));
                            }
                            if snapshot_has(before, x, y) {
                                let (d2, e2) = choose|d2: int, e2: int|
                                    #[trigger] is_file_of(lv, d2, e2) && pair_of(lv, d2, e2) == (x, y) && (d2 < d || (d2 == d
                                        && e2 < e));
                                assert(added_before(lv, d as int, e + 1, x, y));
                            }
                        }
                    }
                } else {
                    proof {
                        assert(!is_file_of(lv, d as int, e as int));
                        assert forall|x: Seq<char>, y: Seq<char>|
                            #[trigger] snapshot_has(out.deep_view(), x, y) <==> added_before(lv, d as int, e + 1, x, y) by {
                            if added_before(lv, d as int, e + 1, x, y) {
                                let (d2, e2) = choose|d2: int, e2: int|
                                    #[trigger] is_file_of(lv, d2, e2) && pair_of(lv, d2, e2) == (x, y) && (d2 < d || (d2 == d
                                        && e2 < e + 1));
                                assert(added_before(lv, d as int, e as int, x, y));
                            }
                            if added_before(lv, d as int, e as int, x, y) {
                                let (d2, e2) = choose|d2: int, e2: int|
                                    #[trigger] is_file_of(lv, d2, e2) && pair_of(lv, d2, e2) == (x, y) && (d2 < d || (d2 == d
                                        && e2 < e));
                                assert(added_before(lv, d as int, e + 1, x, y));
                            }
                        }
                    }
                }
                e = e + 1;
            }
            proof {
                assert forall|x: Seq<char>, y: Seq<char>|
                    #[trigger] snapshot_has(out.deep_view(), x, y) <==> added_before(lv, d + 1, 0, x, y) by {
                    if added_before(lv, d + 1, 0, x, y) {
                        let (d2, e2) = choose|d2: int, e2: int|
                            #[trigger] is_file_of(lv, d2, e2) && pair_of(lv, d2, e2) == (x, y) && (d2 < d + 1 || (d2
                                == d + 1 && e2 < 0));
                        assert(added_before(lv, d as int, l.len() as int, x, y));
                    }
                    if added_before(lv, d as int, l.len() as int, x, y) {
                        let (d2, e2) = choose|d2: int, e2: int|
                            #[trigger] is_file_of(lv, d2, e2) && pair_of(lv, d2, e2) == (x, y) && (d2 < d || (d2 == d
                                && e2 < l.len()));
                        assert(added_before(lv, d + 1, 0, x, y));
                    }
                }
            }
        } else {
            proof {
                assert forall|x: Seq<char>, y: Seq<char>|
                    #[trigger] snapshot_has(out.deep_view(), x, y) <==> added_before(lv, d + 1, 0, x, y) by {
                    if added_before(lv, d + 1, 0, x, y) {
                        let (d2, e2) = choose|d2: int, e2: int|
                            #[trigger] is_file_of(lv, d2, e2) && pair_of(lv, d2, e2) == (x, y) && (d2 < d + 1 || (d2
                                == d + 1 && e2 < 0));
                        assert(d2 != d);
                        assert(added_before(lv, d as int, 0, x, y));
                    }
                    if added_before(lv, d as int, 0, x, y) {
                        let (d2, e2) = choose|d2: int, e2: int|
                            #[trigger] is_file_of(lv, d2, e2) && pair_of(lv, d2, e2) == (x, y) && (d2 < d || (d2 == d
                                && e2 < 0));
                        assert(added_before(lv, d + 1, 0, x, y));
                    }
                }
            }
        }
        d = d + 1;
    }
    proof {
        assert forall|x: Seq<char>, y: Seq<char>|
            #[trigger] snapshot_has(out.deep_view(), x, y) <==> listing_has(lv, x, y) by {
            if listing_has(lv, x, y) {
                let (d2, e2) = choose|d2: int, e2: int| #[trigger] is_file_of(lv, d2, e2) && pair_of(lv, d2, e2) == (x, y);
                assert(added_before(lv, d as int, 0, x, y));
            }
        }
    }
    out
}


/// The snapshot of the resource root `resources_path`, from a walk of it.
pub fn scan_resources(resources_path: String, listing: &Vec<ScanEntry>) -> (r: InitialData)
    ensures
        r.resources_path@ == resources_path@,
        is_snapshot_of(r.resources.deep_view(), listing_view(listing@)),
{
    let resources = scan_listing(listing);
    InitialData { resources_path, resources }
}

/// Two canonical snapshots that list the same files are equal.
pub proof fn lemma_canonical_unique(s1: SnapshotModel, s2: SnapshotModel)
    requires
        is_canonical(s1),
        is_canonical(s2),
        forall|x: Seq<char>, y: Seq<char>| #[trigger] snapshot_has(s1, x, y) <==> snapshot_has(s2, x, y),
    ensures
        s1 == s2,
{
    lemma_name_order();
    lemma_file_order();
    let n1 = snapshot_names(s1);
    let n2 = snapshot_names(s2);
    assert forall|x: Seq<char>| n1.contains(x) <==> n2.contains(x) by {
        if n1.contains(x) {
            let i = choose|i: int| 0 <= i < n1.len() && n1[i] == x;
            assert(s1[i].1.len() > 0);
            assert(s1[i].1.contains(s1[i].1[0]));
            assert(snapshot_has(s1, x, s1[i].1[0]));
            let j = choose|j: int| 0 <= j < s2.len() && (#[trigger] s2[j]).0 == x && s2[j].1.contains(s1[i].1[0]);
            assert(n2[j] == x);
        }
        if n2.contains(x) {
            let i = choose|i: int| 0 <= i < n2.len() && n2[i] == x;
            assert(s2[i].1.len() > 0);
            assert(s2[i].1.contains(s2[i].1[0]));
            assert(snapshot_has(s2, x, s2[i].1[0]));
            assert(snapshot_has(s1, x, s2[i].1[0]));
            let j = choose|j: int| 0 <= j < s1.len() && (#[trigger] s1[j]).0 == x && s1[j].1.contains(s2[i].1[0]);
            assert(n1[j] == x);
        }
    }
    lemma_sorted_unique(n1, n2, name_order());
    assert(s1.len() == n1.len());
    assert(s2.len() == n2.len());
    assert forall|i: int| 0 <= i < s1.len() implies s1[i] == s2[i] by {
        assert(n1[i] == n2[i]);
        let x = s1[i].0;
        assert forall|y: Seq<char>| s1[i].1.contains(y) <==> s2[i].1.contains(y) by {
            if s1[i].1.contains(y) {
                assert(snapshot_has(s1, x, y));
                let j = choose|j: int| 0 <= j < s2.len() && (#[trigger] s2[j]).0 == x && s2[j].1.contains(y);
                if j != i {
                    assert(n2[j] == n2[i]);
                    if j < i {
                        assert(name_order()(n2[j], n2[i]));
                    } else {
                        assert(name_order()(n2[i], n2[j]));
                    }
                }
            }
            if s2[i].1.contains(y) {
                assert(snapshot_has(s2, x, y));
                assert(snapshot_has(s1, x, y));
                let j = choose|j: int| 0 <= j < s1.len() && (#[trigger] s1[j]).0 == x && s1[j].1.contains(y);
                if j != i {
                    assert(n1[j] == n1[i]);
                    if j < i {
                        assert(name_order()(n1[j], n1[i]));
                    } else {
                        assert(name_order()(n1[i], n1[j]));
                    }
                }
            }
        }
        lemma_sorted_unique(s1[i].1, s2[i].1, file_order());
    }
    assert(s1 =~= s2);
}

proof fn lemma_listing_has_transfers(l1: ListingModel, l2: ListingModel, x: Seq<char>, y: Seq<char>)
    requires
        forall|v: (Seq<Seq<char>>, bool)| l1.contains(v) ==> l2.contains(v),
        listing_has(l1, x, y),
    ensures
        listing_has(l2, x, y),
{
    let (d, e) = choose|d: int, e: int| #[trigger] is_file_of(l1, d, e) && pair_of(l1, d, e) == (x, y);
    assert(l1.contains(l1[d]));
    assert(l1.contains(l1[e]));
    let d2 = choose|i: int| 0 <= i < l2.len() && l2[i] == l1[d];
    let e2 = choose|i: int| 0 <= i < l2.len() && l2[i] == l1[e];
    let m = choose|m: int|
        0 <= m < l1.len() && #[trigger] is_below(l1[m].0, l1[d].0) && l1[m].0.len() == l1[d].0.len() + 1
            && is_manifest_name(l1[m].0.last());
    assert(l1.contains(l1[m]));
    let m2 = choose|i: int| 0 <= i < l2.len() && l2[i] == l1[m];
    assert(is_below(l2[m2].0, l2[d2].0));
    assert(is_resource_dir(l2, d2));
    assert(is_file_of(l2, d2, e2));
    assert(pair_of(l2, d2, e2) == (x, y));
}

/// Scanning depends only on which entries the walk found, not on their order
/// or repetition: two scans of an unchanged tree give identical snapshots.
pub proof fn lemma_rescan_identical(l1: ListingModel, l2: ListingModel, s1: SnapshotModel, s2: SnapshotModel)
    requires
        forall|v: (Seq<Seq<char>>, bool)| l1.contains(v) <==> l2.contains(v),
        is_snapshot_of(s1, l1),
        is_snapshot_of(s2, l2),
    ensures
        s1 == s2,
{
    assert forall|x: Seq<char>, y: Seq<char>| #[trigger] snapshot_has(s1, x, y) <==> snapshot_has(s2, x, y) by {
        if listing_has(l1, x, y) {
            lemma_listing_has_transfers(l1, l2, x, y);
        }
        if listing_has(l2, x, y) {
            lemma_listing_has_transfers(l2, l1, x, y);
        }
    }
    lemma_canonical_unique(s1, s2);
}

/// An entry with an ignored or hidden name anywhere on its path is a file of no
/// resource, so nothing below such a directory reaches the snapshot.
pub proof fn lemma_pruned_entry_is_no_file(l: ListingModel, e: int, k: int)
    requires
        0 <= e < l.len(),
        0 <= k < l[e].0.len(),
        is_pruned_name(l[e].0[k]),
    ensures
        forall|d: int| !#[trigger] is_file_of(l, d, e),
{
}

} // verus!
