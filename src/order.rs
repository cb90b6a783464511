//! The case-insensitive orders of the snapshot, and facts about sequences
//! kept strictly sorted by a strict total order.
use vstd::prelude::*;
use crate::text::{
    chars_lt, lemma_chars_lt_irreflexive, lemma_chars_lt_total, lemma_chars_lt_transitive,
    lower_of, lowercase, str_eq, str_lt,
};

verus! {

/// `lt` is irreflexive, transitive and total on distinct values.
pub open spec fn is_strict_order(lt: spec_fn(Seq<char>, Seq<char>) -> bool) -> bool {
    &&& forall|a: Seq<char>| !(#[trigger] lt(a, a))
    &&& forall|a: Seq<char>, b: Seq<char>, c: Seq<char>|
        #[trigger] lt(a, b) && #[trigger] lt(b, c) ==> lt(a, c)
    &&& forall|a: Seq<char>, b: Seq<char>| a != b ==> #[trigger] lt(a, b) || lt(b, a)
}

/// Every element comes strictly before every later one.
pub open spec fn strictly_sorted(s: Seq<Seq<char>>, lt: spec_fn(Seq<char>, Seq<char>) -> bool) -> bool {
    forall|i: int, j: int| 0 <= i < j < s.len() ==> lt(#[trigger] s[i], #[trigger] s[j])
}

/// Inserting `x` where everything before is smaller and everything from there
/// on is larger keeps a sequence strictly sorted.
pub proof fn lemma_insert_sorted(
    s: Seq<Seq<char>>,
    i: int,
    x: Seq<char>,
    lt: spec_fn(Seq<char>, Seq<char>) -> bool,
)
    requires
        is_strict_order(lt),
        strictly_sorted(s, lt),
        0 <= i <= s.len(),
        forall|k: int| 0 <= k < i ==> lt(#[trigger] s[k], x),
        i < s.len() ==> lt(x, s[i]),
    ensures
        strictly_sorted(s.insert(i, x), lt),
{
    let t = s.insert(i, x);
    assert forall|a: int, b: int| 0 <= a < b < t.len() implies lt(#[trigger] t[a], #[trigger] t[b]) by {
        if b > i && a < i {
        } else if a == i && b > i {
            if b - 1 > i {
                assert(lt(s[i], s[b - 1]));
            }
        }
    }
}

/// Two strictly sorted sequences with the same elements are equal.
pub proof fn lemma_sorted_unique(
    a: Seq<Seq<char>>,
    b: Seq<Seq<char>>,
    lt: spec_fn(Seq<char>, Seq<char>) -> bool,
)
    requires
        is_strict_order(lt),
        strictly_sorted(a, lt),
        strictly_sorted(b, lt),
        forall|x: Seq<char>| a.contains(x) <==> b.contains(x),
    ensures
        a == b,
    decreases a.len(),
{
    if a.len() == 0 {
        if b.len() > 0 {
            assert(b.contains(b[0]));
        }
        assert(a =~= b);
    } else {
        assert(a.contains(a[0]));
        assert(b.len() > 0);
        assert(b.contains(b[0]));
        assert(a[0] == b[0]) by {
            if a[0] != b[0] {
                let j = choose|j: int| 0 <= j < a.len() && a[j] == b[0];
                let k = choose|k: int| 0 <= k < b.len() && b[k] == a[0];
                assert(j > 0);
                assert(k > 0);
                assert(lt(a[0], a[j]));
                assert(lt(b[0], b[k]));
            }
        }
        let a1 = a.drop_first();
        let b1 = b.drop_first();
        assert forall|x: Seq<char>| a1.contains(x) <==> b1.contains(x) by {
            if a1.contains(x) {
                let j = choose|j: int| 0 <= j < a1.len() && a1[j] == x;
                assert(a[j + 1] == x);
                assert(lt(a[0], a[j + 1]));
                assert(b.contains(x));
                let k = choose|k: int| 0 <= k < b.len() && b[k] == x;
                assert(k != 0);
                assert(b1[k - 1] == x);
            }
            if b1.contains(x) {
                let j = choose|j: int| 0 <= j < b1.len() && b1[j] == x;
                assert(b[j + 1] == x);
                assert(lt(b[0], b[j + 1]));
                assert(a.contains(x));
                let k = choose|k: int| 0 <= k < a.len() && a[k] == x;
                assert(k != 0);
                assert(a1[k - 1] == x);
            }
        }
        assert(strictly_sorted(a1, lt)) by {
            assert forall|i: int, j: int| 0 <= i < j < a1.len() implies lt(#[trigger] a1[i], #[trigger] a1[j]) by {
                assert(lt(a[i + 1], a[j + 1]));
            }
        }
        assert(strictly_sorted(b1, lt)) by {
            assert forall|i: int, j: int| 0 <= i < j < b1.len() implies lt(#[trigger] b1[i], #[trigger] b1[j]) by {
                assert(lt(b[i + 1], b[j + 1]));
            }
        }
        lemma_sorted_unique(a1, b1, lt);
        assert(a =~= seq![a[0]] + a1);
        assert(b =~= seq![b[0]] + b1);
    }
}

/// Resource names: case-insensitively, then by exact characters.
pub open spec fn name_lt(a: Seq<char>, b: Seq<char>) -> bool {
    if lower_of(a) != lower_of(b) {
        chars_lt(lower_of(a), lower_of(b))
    } else {
        chars_lt(a, b)
    }
}

pub open spec fn name_order() -> spec_fn(Seq<char>, Seq<char>) -> bool {
    |a: Seq<char>, b: Seq<char>| name_lt(a, b)
}

/// The index of the first path separator `/` in `s`, if any.
pub open spec fn first_sep(s: Seq<char>) -> Option<int> {
    if exists|i: int| 0 <= i < s.len() && s[i] == '/' {
        Some(choose|i: int| 0 <= i < s.len() && s[i] == '/' && forall|j: int| 0 <= j < i ==> s[j] != '/')
    } else {
        None
    }
}

/// The relative path lies in a subfolder of the resource.
pub open spec fn is_nested(s: Seq<char>) -> bool {
    first_sep(s) is Some
}

/// The top-level subfolder of a nested path; empty for a root-level file.
pub open spec fn top_folder(s: Seq<char>) -> Seq<char> {
    match first_sep(s) {
        Some(i) => s.subrange(0, i),
        None => Seq::empty(),
    }
}

/// Files of a resource: root-level files first; nested files by top-level
/// subfolder, case-insensitively; then by the whole path case-insensitively;
/// then by exact characters.
pub open spec fn file_lt(a: Seq<char>, b: Seq<char>) -> bool {
    if is_nested(a) != is_nested(b) {
        !is_nested(a)
    } else if lower_of(top_folder(a)) != lower_of(top_folder(b)) {
        chars_lt(lower_of(top_folder(a)), lower_of(top_folder(b)))
    } else if lower_of(a) != lower_of(b) {
        chars_lt(lower_of(a), lower_of(b))
    } else {
        chars_lt(a, b)
    }
}

pub open spec fn file_order() -> spec_fn(Seq<char>, Seq<char>) -> bool {
    |a: Seq<char>, b: Seq<char>| file_lt(a, b)
}

proof fn lemma_lt_trans_if(a: Seq<char>, b: Seq<char>, c: Seq<char>)
    ensures
        chars_lt(a, b) && chars_lt(b, c) ==> chars_lt(a, c),
{
    if chars_lt(a, b) && chars_lt(b, c) {
        lemma_chars_lt_transitive(a, b, c);
    }
}

pub proof fn lemma_name_order()
    ensures
        is_strict_order(name_order()),
{
    let lt = name_order();
    assert forall|a: Seq<char>| !(#[trigger] lt(a, a)) by {
        lemma_chars_lt_irreflexive(a);
    }
    assert forall|a: Seq<char>, b: Seq<char>, c: Seq<char>|
        #[trigger] lt(a, b) && #[trigger] lt(b, c) implies lt(a, c) by {
        lemma_lt_trans_if(lower_of(a), lower_of(b), lower_of(c));
        lemma_lt_trans_if(a, b, c);
        lemma_chars_lt_irreflexive(lower_of(a));
        if lower_of(a) == lower_of(c) && lower_of(a) != lower_of(b) {
            lemma_chars_lt_transitive(lower_of(a), lower_of(b), lower_of(a));
        }
    }
    assert forall|a: Seq<char>, b: Seq<char>| a != b implies #[trigger] lt(a, b) || lt(b, a) by {
        lemma_chars_lt_total(a, b);
        lemma_chars_lt_total(lower_of(a), lower_of(b));
    }
}

pub proof fn lemma_file_order()
    ensures
        is_strict_order(file_order()),
{
    let lt = file_order();
    assert forall|a: Seq<char>| !(#[trigger] lt(a, a)) by {
        lemma_chars_lt_irreflexive(a);
    }
    assert forall|a: Seq<char>, b: Seq<char>, c: Seq<char>|
        #[trigger] lt(a, b) && #[trigger] lt(b, c) implies lt(a, c) by {
        let (ta, tb, tc) = (lower_of(top_folder(a)), lower_of(top_folder(b)), lower_of(top_folder(c)));
        lemma_lt_trans_if(ta, tb, tc);
        lemma_lt_trans_if(lower_of(a), lower_of(b), lower_of(c));
        lemma_lt_trans_if(a, b, c);
        if ta == tc && ta != tb {
            lemma_lt_trans_if(ta, tb, ta);
            lemma_chars_lt_irreflexive(ta);
        }
        if lower_of(a) == lower_of(c) && lower_of(a) != lower_of(b) {
            lemma_lt_trans_if(lower_of(a), lower_of(b), lower_of(a));
            lemma_chars_lt_irreflexive(lower_of(a));
        }
    }
    assert forall|a: Seq<char>, b: Seq<char>| a != b implies #[trigger] lt(a, b) || lt(b, a) by {
        lemma_chars_lt_total(a, b);
        lemma_chars_lt_total(lower_of(a), lower_of(b));
        lemma_chars_lt_total(lower_of(top_folder(a)), lower_of(top_folder(b)));
    }
}

/// Compares two resource names in `name_lt` order.
pub fn name_lt_exec(a: &str, b: &str) -> (r: bool)
    ensures
        r == name_lt(a@, b@),
{
    let la = lowercase(a);
    let lb = lowercase(b);
    if str_eq(la.as_str(), lb.as_str()) {
        str_lt(a, b)
    } else {
        str_lt(la.as_str(), lb.as_str())
    }
}

/// The index of the first `/` in `s`, if any.
fn first_sep_exec(s: &str) -> (r: Option<usize>)
    ensures
        match r {
            Some(i) => i < s@.len() && first_sep(s@) == Some(i as int),
            None => first_sep(s@) is None,
        },
{
    let n = s.unicode_len();
    let mut i: usize = 0;
    while i < n
        invariant
            n == s@.len(),
            i <= n,
            forall|j: int| 0 <= j < i ==> s@[j] != '/',
        decreases n - i,
    {
        if s.get_char(i) == '/' {
            let ghost c = choose|k: int| 0 <= k < s@.len() && s@[k] == '/' && forall|j: int| 0 <= j < k ==> s@[j] != '/';
            assert(c == i) by {
                if c < i {
                } else if c > i {
                }
            }
            return Some(i);
        }
        i = i + 1;
    }
    None
}

/// The top-level folder of a relative path, and whether it is nested.
fn top_folder_exec(s: &str) -> (r: (bool, String))
    ensures
        r.0 == is_nested(s@),
        r.1@ == top_folder(s@),
{
    match first_sep_exec(s) {
        Some(i) => (true, s.substring_char(0, i).to_owned()),
        None => (false, String::new()),
    }
}

/// Compares two relative file paths in `file_lt` order.
pub fn file_lt_exec(a: &str, b: &str) -> (r: bool)
    ensures
        r == file_lt(a@, b@),
{
    let (na, ta) = top_folder_exec(a);
    let (nb, tb) = top_folder_exec(b);
    if na != nb {
        return !na;
    }
    let lta = lowercase(ta.as_str());
    let ltb = lowercase(tb.as_str());
    if !str_eq(lta.as_str(), ltb.as_str()) {
        return str_lt(lta.as_str(), ltb.as_str());
    }
    name_lt_exec(a, b)
}

} // verus!
