use vstd::prelude::*;

use crate::graph::{files_view, SourceFile, SourceView};

verus! {

/// Lexicographic order on paths, character by character; a proper prefix
/// comes first.
pub open spec fn path_lt(a: Seq<char>, b: Seq<char>) -> bool
    decreases a.len(),
{
    if a.len() == 0 {
        b.len() > 0
    } else if b.len() == 0 {
        false
    } else if a[0] != b[0] {
        a[0] < b[0]
    } else {
        path_lt(a.drop_first(), b.drop_first())
    }
}

pub proof fn lemma_path_lt_irreflexive(a: Seq<char>)
    ensures
        !path_lt(a, a),
    decreases a.len(),
{
    if a.len() > 0 {
        lemma_path_lt_irreflexive(a.drop_first());
    }
}

pub proof fn lemma_path_lt_asymmetric(a: Seq<char>, b: Seq<char>)
    ensures
        path_lt(a, b) ==> !path_lt(b, a),
    decreases a.len(),
{
    if a.len() > 0 && b.len() > 0 && a[0] == b[0] {
        lemma_path_lt_asymmetric(a.drop_first(), b.drop_first());
    }
}

pub proof fn lemma_path_lt_transitive(a: Seq<char>, b: Seq<char>, c: Seq<char>)
    ensures
        path_lt(a, b) && path_lt(b, c) ==> path_lt(a, c),
    decreases a.len(),
{
    if a.len() > 0 && b.len() > 0 && c.len() > 0 && a[0] == b[0] && b[0] == c[0] {
        lemma_path_lt_transitive(a.drop_first(), b.drop_first(), c.drop_first());
    }
}

pub proof fn lemma_path_lt_total(a: Seq<char>, b: Seq<char>)
    ensures
        a != b ==> path_lt(a, b) || path_lt(b, a),
    decreases a.len(),
{
    if a.len() > 0 && b.len() > 0 && a[0] == b[0] {
        lemma_path_lt_total(a.drop_first(), b.drop_first());
        if a.drop_first() == b.drop_first() {
            assert(a =~= seq![a[0]] + a.drop_first());
            assert(b =~= seq![b[0]] + b.drop_first());
        }
    } else if a.len() == 0 && b.len() == 0 {
        assert(a =~= b);
    }
}

/// Comparing from a common prefix on gives the same answer.
proof fn lemma_path_lt_skip(a: Seq<char>, b: Seq<char>, i: int)
    requires
        0 <= i <= a.len(),
        i <= b.len(),
        a.take(i) == b.take(i),
    ensures
        path_lt(a, b) == path_lt(a.skip(i), b.skip(i)),
    decreases i,
{
    if i > 0 {
        assert(a[0] == a.take(i)[0]);
        assert(b[0] == b.take(i)[0]);
        assert(a.drop_first().take(i - 1) =~= a.take(i).drop_first());
        assert(b.drop_first().take(i - 1) =~= b.take(i).drop_first());
        lemma_path_lt_skip(a.drop_first(), b.drop_first(), i - 1);
        assert(a.drop_first().skip(i - 1) =~= a.skip(i));
        assert(b.drop_first().skip(i - 1) =~= b.skip(i));
    } else {
        assert(a.skip(0) =~= a);
        assert(b.skip(0) =~= b);
    }
}

/// Whether path `a` comes before path `b`.
pub fn path_less(a: &str, b: &str) -> (r: bool)
    ensures
        r == path_lt(a@, b@),
{
    let la = a.unicode_len();
    let lb = b.unicode_len();
    let mut i: usize = 0;
    while i < la && i < lb
        invariant
            i <= la,
            i <= lb,
            la == a@.len(),
            lb == b@.len(),
            a@.take(i as int) == b@.take(i as int),
        decreases la - i,
    {
        let ca = a.get_char(i);
        let cb = b.get_char(i);
        if ca != cb {
            proof {
                lemma_path_lt_skip(a@, b@, i as int);
                assert(a@.skip(i as int)[0] == ca);
                assert(b@.skip(i as int)[0] == cb);
            }
            return ca < cb;
        }
        assert(a@.take(i + 1) =~= a@.take(i as int).push(ca));
        assert(b@.take(i + 1) =~= b@.take(i as int).push(cb));
        i = i + 1;
    }
    proof {
        lemma_path_lt_skip(a@, b@, i as int);
    }
    i < lb
}

/// `s` with `f` placed after every file whose path does not follow `f`'s,
/// counting from the end.
pub open spec fn insert_by_path(s: Seq<SourceView>, f: SourceView) -> Seq<SourceView>
    decreases s.len(),
{
    if s.len() > 0 && path_lt(f.path, s.last().path) {
        insert_by_path(s.drop_last(), f).push(s.last())
    } else {
        s.push(f)
    }
}

/// The files ordered by path, by insertion; files with equal paths keep
/// their order.
pub open spec fn sort_by_path(fs: Seq<SourceView>) -> Seq<SourceView>
    decreases fs.len(),
{
    if fs.len() == 0 {
        fs
    } else {
        insert_by_path(sort_by_path(fs.drop_last()), fs.last())
    }
}

pub open spec fn sorted_by_path(s: Seq<SourceView>) -> bool {
    forall|i: int, j: int| 0 <= i < j < s.len() ==> !path_lt(#[trigger] s[j].path, #[trigger] s[i].path)
}

/// No path is listed twice.
pub open spec fn distinct_paths(s: Seq<SourceView>) -> bool {
    forall|i: int, j: int| 0 <= i < j < s.len() ==> #[trigger] s[i].path != #[trigger] s[j].path
}

/// Inserting by path is inserting at some position.
proof fn lemma_insert_position(s: Seq<SourceView>, f: SourceView)
    ensures
        exists|k: int| 0 <= k <= s.len() && insert_by_path(s, f) == s.insert(k, f),
    decreases s.len(),
{
    if s.len() > 0 && path_lt(f.path, s.last().path) {
        lemma_insert_position(s.drop_last(), f);
        let k = choose|k: int|
            0 <= k <= s.drop_last().len() && insert_by_path(s.drop_last(), f) == s.drop_last().insert(
                k,
                f,
            );
        assert(insert_by_path(s, f) =~= s.insert(k, f));
    } else {
        assert(insert_by_path(s, f) =~= s.insert(s.len() as int, f));
    }
}

/// Where the exec insertion puts a file is where `insert_by_path` does.
proof fn lemma_insert_at(s: Seq<SourceView>, f: SourceView, k: int)
    requires
        0 <= k <= s.len(),
        forall|j: int| k <= j < s.len() ==> path_lt(f.path, #[trigger] s[j].path),
        k > 0 ==> !path_lt(f.path, s[k - 1].path),
    ensures
        insert_by_path(s, f) == s.insert(k, f),
    decreases s.len(),
{
    if k == s.len() {
        assert(s.push(f) =~= s.insert(k, f));
    } else {
        assert(path_lt(f.path, s.last().path));
        lemma_insert_at(s.drop_last(), f, k);
        assert(s.drop_last().insert(k, f).push(s.last()) =~= s.insert(k, f));
    }
}

proof fn lemma_insert_contents(s: Seq<SourceView>, f: SourceView)
    ensures
        forall|x: SourceView| #[trigger] insert_by_path(s, f).contains(x) <==> s.contains(x) || x == f,
{
    lemma_insert_position(s, f);
    let k = choose|k: int| 0 <= k <= s.len() && insert_by_path(s, f) == s.insert(k, f);
    let r = s.insert(k, f);
    assert forall|x: SourceView| r.contains(x) <==> s.contains(x) || x == f by {
        if r.contains(x) {
            let j = choose|j: int| 0 <= j < r.len() && r[j] == x;
            if j < k {
                assert(s[j] == x);
            } else if j > k {
                assert(s[j - 1] == x);
            }
        }
        if s.contains(x) {
            let j = choose|j: int| 0 <= j < s.len() && s[j] == x;
            if j < k {
                assert(r[j] == x);
            } else {
                assert(r[j + 1] == x);
            }
        }
        if x == f {
            assert(r[k] == x);
        }
    }
}

/// Ordering keeps the files of the listing, and brings in no other.
pub proof fn lemma_sort_contents(fs: Seq<SourceView>)
    ensures
        sort_by_path(fs).len() == fs.len(),
        forall|x: SourceView| #[trigger] sort_by_path(fs).contains(x) <==> fs.contains(x),
    decreases fs.len(),
{
    if fs.len() > 0 {
        let prev = fs.drop_last();
        lemma_sort_contents(prev);
        lemma_insert_contents(sort_by_path(prev), fs.last());
        lemma_insert_position(sort_by_path(prev), fs.last());
        assert forall|x: SourceView| #[trigger] sort_by_path(fs).contains(x) <==> fs.contains(x) by {
            if prev.contains(x) {
                let j = choose|j: int| 0 <= j < prev.len() && prev[j] == x;
                assert(fs[j] == x);
            }
            if fs.contains(x) {
                let j = choose|j: int| 0 <= j < fs.len() && fs[j] == x;
                if j < fs.len() - 1 {
                    assert(prev[j] == x);
                }
            }
        }
    }
}

proof fn lemma_not_after_transitive(a: Seq<char>, b: Seq<char>, c: Seq<char>)
    requires
        !path_lt(b, a),
        !path_lt(c, b),
    ensures
        !path_lt(c, a),
{
    lemma_path_lt_total(a, b);
    lemma_path_lt_total(b, c);
    lemma_path_lt_transitive(c, a, b);
    lemma_path_lt_transitive(b, c, a);
    lemma_path_lt_asymmetric(a, b);
    lemma_path_lt_asymmetric(b, c);
}

proof fn lemma_insert_sorted(s: Seq<SourceView>, f: SourceView)
    requires
        sorted_by_path(s),
    ensures
        sorted_by_path(insert_by_path(s, f)),
    decreases s.len(),
{
    let r = insert_by_path(s, f);
    if s.len() > 0 && path_lt(f.path, s.last().path) {
        let p = s.drop_last();
        lemma_insert_sorted(p, f);
        let q = insert_by_path(p, f);
        lemma_insert_contents(p, f);
        lemma_path_lt_asymmetric(f.path, s.last().path);
        assert forall|i: int, j: int| 0 <= i < j < r.len() implies !path_lt(
            #[trigger] r[j].path,
            #[trigger] r[i].path,
        ) by {
            if j == r.len() - 1 {
                assert(q.contains(r[i]));
                if r[i] != f {
                    let m = choose|m: int| 0 <= m < p.len() && p[m] == r[i];
                    assert(s[m] == r[i]);
                    assert(!path_lt(s[s.len() - 1].path, s[m].path));
                }
            } else {
                assert(r[i] == q[i]);
                assert(r[j] == q[j]);
            }
        }
    } else {
        assert forall|i: int, j: int| 0 <= i < j < r.len() implies !path_lt(
            #[trigger] r[j].path,
            #[trigger] r[i].path,
        ) by {
            if j == r.len() - 1 && s.len() > 0 {
                if i < s.len() - 1 {
                    assert(!path_lt(s[s.len() - 1].path, s[i].path));
                    lemma_not_after_transitive(s[i].path, s[s.len() - 1].path, f.path);
                }
            } else if j < r.len() - 1 {
                assert(r[i] == s[i]);
                assert(r[j] == s[j]);
            }
        }
    }
}

/// The ordered listing is ordered.
pub proof fn lemma_sort_sorted(fs: Seq<SourceView>)
    ensures
        sorted_by_path(sort_by_path(fs)),
    decreases fs.len(),
{
    if fs.len() > 0 {
        lemma_sort_sorted(fs.drop_last());
        lemma_insert_sorted(sort_by_path(fs.drop_last()), fs.last());
    }
}

/// Ordering a listing without repeated paths repeats none.
pub proof fn lemma_sort_distinct(fs: Seq<SourceView>)
    requires
        distinct_paths(fs),
    ensures
        distinct_paths(sort_by_path(fs)),
    decreases fs.len(),
{
    if fs.len() > 0 {
        let prev = fs.drop_last();
        let f = fs.last();
        assert(distinct_paths(prev)) by {
            assert forall|i: int, j: int| 0 <= i < j < prev.len() implies #[trigger] prev[i].path
                != #[trigger] prev[j].path by {
                assert(prev[i] == fs[i] && prev[j] == fs[j]);
            }
        }
        lemma_sort_distinct(prev);
        let s = sort_by_path(prev);
        lemma_sort_contents(prev);
        lemma_insert_position(s, f);
        let k = choose|k: int| 0 <= k <= s.len() && insert_by_path(s, f) == s.insert(k, f);
        let r = s.insert(k, f);
        assert forall|m: int| 0 <= m < s.len() implies s[m].path != f.path by {
            assert(s.contains(s[m]));
            let w = choose|w: int| 0 <= w < prev.len() && prev[w] == s[m];
            assert(fs[w] == s[m]);
            assert(fs[w].path != fs[fs.len() - 1].path);
        }
        assert forall|i: int, j: int| 0 <= i < j < r.len() implies #[trigger] r[i].path
            != #[trigger] r[j].path by {
            if i < k && j < k {
                assert(r[i] == s[i] && r[j] == s[j]);
            } else if i < k && j == k {
                assert(r[i] == s[i]);
            } else if i < k {
                assert(r[i] == s[i] && r[j] == s[j - 1]);
            } else if i == k {
                assert(r[j] == s[j - 1]);
            } else {
                assert(r[i] == s[i - 1] && r[j] == s[j - 1]);
            }
        }
    }
}

/// Two ordered listings without repeated paths that hold the same files are
/// the same listing.
pub proof fn lemma_sorted_unique(s1: Seq<SourceView>, s2: Seq<SourceView>)
    requires
        sorted_by_path(s1),
        sorted_by_path(s2),
        distinct_paths(s1),
        distinct_paths(s2),
        forall|x: SourceView| s1.contains(x) <==> s2.contains(x),
    ensures
        s1 == s2,
    decreases s1.len() + s2.len(),
{
    if s1.len() == 0 || s2.len() == 0 {
        if s1.len() > 0 {
            assert(s1.contains(s1[0]));
        }
        if s2.len() > 0 {
            assert(s2.contains(s2[0]));
        }
        assert(s1 =~= s2);
    } else {
        let a = s1.last();
        let b = s2.last();
        assert(s1.contains(a));
        assert(s2.contains(b));
        let m = choose|m: int| 0 <= m < s2.len() && s2[m] == a;
        let n = choose|n: int| 0 <= n < s1.len() && s1[n] == b;
        if n < s1.len() - 1 {
            assert(!path_lt(s1[s1.len() - 1].path, s1[n].path));
        }
        if m < s2.len() - 1 {
            assert(!path_lt(s2[s2.len() - 1].path, s2[m].path));
        }
        lemma_path_lt_irreflexive(a.path);
        lemma_path_lt_total(a.path, b.path);
        assert(a.path == b.path);
        assert(m == s2.len() - 1);
        assert(a == b);
        let p1 = s1.drop_last();
        let p2 = s2.drop_last();
        assert forall|x: SourceView| p1.contains(x) <==> p2.contains(x) by {
            if p1.contains(x) {
                let i = choose|i: int| 0 <= i < p1.len() && p1[i] == x;
                assert(s1[i] == x);
                assert(s1.contains(x));
                let j = choose|j: int| 0 <= j < s2.len() && s2[j] == x;
                if j == s2.len() - 1 {
                    assert(s1[i].path == s1[s1.len() - 1].path);
                }
                assert(p2[j] == x);
            }
            if p2.contains(x) {
                let j = choose|j: int| 0 <= j < p2.len() && p2[j] == x;
                assert(s2[j] == x);
                assert(s2.contains(x));
                let i = choose|i: int| 0 <= i < s1.len() && s1[i] == x;
                if i == s1.len() - 1 {
                    assert(s2[j].path == s2[s2.len() - 1].path);
                }
                assert(p1[i] == x);
            }
        }
        assert(sorted_by_path(p1));
        assert(sorted_by_path(p2));
        assert(distinct_paths(p1));
        assert(distinct_paths(p2));
        lemma_sorted_unique(p1, p2);
        assert(s1 =~= p1.push(a));
        assert(s2 =~= p2.push(b));
    }
}

/// The listing seen through a list of its positions.
pub open spec fn pick(fs: Seq<SourceView>, order: Seq<usize>) -> Seq<SourceView> {
    order.map_values(|k: usize| fs[k as int])
}

/// The positions of `files` in path order: the files at these positions, in
/// turn, are `sort_by_path` of the listing.
pub fn path_order(files: &Vec<SourceFile>) -> (r: Vec<usize>)
    ensures
        r@.len() == files@.len(),
        forall|i: int| 0 <= i < r@.len() ==> r@[i] < files@.len(),
        pick(files_view(files@), r@) == sort_by_path(files_view(files@)),
{
    let ghost fv = files_view(files@);
    let mut order: Vec<usize> = Vec::new();
    let mut i: usize = 0;
    assert(pick(fv, order@) =~= sort_by_path(fv.take(0)));
    while i < files.len()
        invariant
            i <= files@.len(),
            fv == files_view(files@),
            order@.len() == i,
            forall|j: int| 0 <= j < order@.len() ==> order@[j] < i,
            pick(fv, order@) == sort_by_path(fv.take(i as int)),
        decreases files@.len() - i,
    {
        let ghost s = pick(fv, order@);
        let mut k: usize = order.len();
        while k > 0 && path_less(files[i].path.as_str(), files[order[k - 1]].path.as_str())
            invariant
                k <= order@.len(),
                i < files@.len(),
                fv == files_view(files@),
                s == pick(fv, order@),
                forall|j: int| 0 <= j < order@.len() ==> order@[j] < i,
                forall|j: int| k <= j < s.len() ==> path_lt(fv[i as int].path, #[trigger] s[j].path),
            decreases k,
        {
            k = k - 1;
        }
        proof {
            lemma_insert_at(s, fv[i as int], k as int);
            assert(fv.take(i + 1).drop_last() =~= fv.take(i as int));
        }
        order.insert(k, i);
        assert(pick(fv, order@) =~= s.insert(k as int, fv[i as int]));
        i = i + 1;
    }
    assert(fv.take(i as int) =~= fv);
    order
}

} // verus!
