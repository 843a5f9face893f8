use vstd::prelude::*;

verus! {

/// Position of the last `c` in `s`, or -1 when `s` holds none.
pub open spec fn last_index_of(s: Seq<char>, c: char) -> int
    decreases s.len(),
{
    if s.len() == 0 {
        -1
    } else if s.last() == c {
        s.len() - 1
    } else {
        last_index_of(s.drop_last(), c)
    }
}

/// Where the final component of `p` starts.
pub open spec fn name_start(p: Seq<char>) -> int {
    last_index_of(p, '/') + 1
}

/// The final component of `p`.
pub open spec fn file_name(p: Seq<char>) -> Seq<char> {
    p.skip(name_start(p))
}

/// Length of the stem of a file name: what stands before its last dot, unless
/// that dot is the leading one or there is none.
pub open spec fn stem_len(name: Seq<char>) -> int {
    let d = last_index_of(name, '.');
    if d > 0 {
        d
    } else {
        name.len() as int
    }
}

/// The file name of `p` without its extension.
pub open spec fn file_stem(p: Seq<char>) -> Seq<char> {
    file_name(p).take(stem_len(file_name(p)))
}

/// The extension of `p`'s file name, when it has one.
pub open spec fn extension(p: Seq<char>) -> Option<Seq<char>> {
    let n = file_name(p);
    let d = last_index_of(n, '.');
    if d > 0 {
        Some(n.skip(d + 1))
    } else {
        None
    }
}

/// `b` placed under the directory `a`.
pub open spec fn join_path(a: Seq<char>, b: Seq<char>) -> Seq<char> {
    a + seq!['/'] + b
}

/// `p` with the extension of its file name replaced by `e` (removed when `e` is empty).
pub open spec fn replace_extension(p: Seq<char>, e: Seq<char>) -> Seq<char> {
    let keep = p.take(name_start(p) + stem_len(file_name(p)));
    if e.len() == 0 {
        keep
    } else {
        keep + seq!['.'] + e
    }
}

pub proof fn lemma_last_index_of(s: Seq<char>, c: char)
    ensures
        -1 <= last_index_of(s, c) < s.len(),
        last_index_of(s, c) >= 0 ==> s[last_index_of(s, c)] == c,
        forall|j: int| last_index_of(s, c) < j < s.len() ==> s[j] != c,
    decreases s.len(),
{
    if s.len() > 0 && s.last() != c {
        lemma_last_index_of(s.drop_last(), c);
        assert forall|j: int| last_index_of(s, c) < j < s.len() implies s[j] != c by {
            if j < s.len() - 1 {
                assert(s[j] == s.drop_last()[j]);
            }
        }
    }
}

/// Where the last `c` of a concatenation stands.
pub proof fn lemma_last_index_of_concat(x: Seq<char>, y: Seq<char>, c: char)
    ensures
        last_index_of(x + y, c) == if last_index_of(y, c) >= 0 {
            x.len() + last_index_of(y, c)
        } else {
            last_index_of(x, c)
        },
    decreases y.len(),
{
    if y.len() == 0 {
        assert(x + y =~= x);
    } else {
        assert((x + y).last() == y.last());
        if y.last() != c {
            assert((x + y).drop_last() =~= x + y.drop_last());
            lemma_last_index_of_concat(x, y.drop_last(), c);
        }
    }
}

/// A sequence without `c` has no last `c`.
pub proof fn lemma_last_index_of_none(s: Seq<char>, c: char)
    requires
        forall|i: int| 0 <= i < s.len() ==> s[i] != c,
    ensures
        last_index_of(s, c) == -1,
{
    lemma_last_index_of(s, c);
}

/// The final component holds no `/`.
pub proof fn lemma_file_name_has_no_slash(p: Seq<char>)
    ensures
        forall|i: int| 0 <= i < file_name(p).len() ==> file_name(p)[i] != '/',
        0 <= name_start(p) <= p.len(),
        name_start(p) > 0 ==> p[name_start(p) - 1] == '/',
{
    lemma_last_index_of(p, '/');
    assert forall|i: int| 0 <= i < file_name(p).len() implies file_name(p)[i] != '/' by {
        assert(file_name(p)[i] == p[name_start(p) + i]);
    }
}

/// A name without dots or slashes under a directory gets the extension appended.
pub proof fn lemma_append_extension(d: Seq<char>, n: Seq<char>, e: Seq<char>)
    requires
        e.len() > 0,
        forall|i: int| 0 <= i < n.len() ==> n[i] != '/' && n[i] != '.',
    ensures
        replace_extension(join_path(d, n), e) == d + seq!['/'] + n + seq!['.'] + e,
{
    let x = d + seq!['/'];
    let q = join_path(d, n);
    assert(q =~= x + n);
    lemma_last_index_of_none(n, '/');
    lemma_last_index_of_concat(x, n, '/');
    assert(x.last() == '/');
    assert(file_name(q) =~= n);
    lemma_last_index_of_none(n, '.');
    assert(q.take(name_start(q) + stem_len(file_name(q))) =~= q);
}

/// Moving a source under another directory and replacing its extension keeps
/// its stem.
pub proof fn lemma_relocated_stem(dir: Seq<char>, r: Seq<char>, e: Seq<char>)
    requires
        extension(r) is Some,
        e.len() > 0,
        forall|i: int| 0 <= i < e.len() ==> e[i] != '/' && e[i] != '.',
    ensures
        file_stem(replace_extension(join_path(dir, r), e)) == file_stem(r),
{
    let x = dir + seq!['/'];
    let q = join_path(dir, r);
    assert(q =~= x + r);
    let n = file_name(r);
    lemma_file_name_has_no_slash(r);
    lemma_last_index_of_concat(x, r, '/');
    assert(x.last() == '/');
    let nsq = name_start(q);
    assert(nsq == x.len() + name_start(r));
    assert(file_name(q) =~= n);
    let d = last_index_of(n, '.');
    lemma_last_index_of(n, '.');
    assert(d > 0);
    let keep = q.take(nsq + d);
    let tail = seq!['.'] + e;
    let big = replace_extension(q, e);
    assert(big =~= keep + tail);
    // the last slash of the result is the one before the file name
    assert forall|i: int| 0 <= i < tail.len() implies tail[i] != '/' by {
        if i > 0 {
            assert(tail[i] == e[i - 1]);
        }
    }
    lemma_last_index_of_none(tail, '/');
    lemma_last_index_of_concat(keep, tail, '/');
    let head = q.take(nsq);
    let stem = n.take(d);
    assert(keep =~= head + stem);
    assert forall|i: int| 0 <= i < stem.len() implies stem[i] != '/' by {
        assert(stem[i] == n[i]);
    }
    lemma_last_index_of_none(stem, '/');
    lemma_last_index_of_concat(head, stem, '/');
    assert(head.last() == '/');
    assert(name_start(big) == nsq);
    let bn = file_name(big);
    assert(bn =~= stem + tail);
    // and the last dot of the new file name is the one before `e`
    lemma_last_index_of_none(e, '.');
    lemma_last_index_of_concat(stem + seq!['.'], e, '.');
    assert(bn =~= (stem + seq!['.']) + e);
    assert((stem + seq!['.']).last() == '.');
    assert(last_index_of(bn, '.') == d);
    assert(bn.take(d) =~= stem);
}

/// The position of the last `c` in `s`.
pub fn last_index(s: &str, c: char) -> (r: Option<usize>)
    ensures
        s@.len() <= usize::MAX,
        match r {
            Some(i) => last_index_of(s@, c) == i,
            None => last_index_of(s@, c) == -1,
        },
{
    let mut i: usize = s.unicode_len();
    proof {
        lemma_last_index_of(s@, c);
    }
    while i > 0
        invariant
            i <= s@.len(),
            s@.len() <= usize::MAX,
            forall|j: int| i <= j < s@.len() ==> s@[j] != c,
        decreases i,
    {
        if s.get_char(i - 1) == c {
            proof {
                lemma_last_index_of(s@, c);
            }
            return Some(i - 1);
        }
        i = i - 1;
    }
    None
}

/// The final component of `p`.
pub fn file_name_of(p: &str) -> (r: String)
    ensures
        r@ == file_name(p@),
{
    let len = p.unicode_len();
    proof {
        lemma_last_index_of(p@, '/');
    }
    let start: usize = match last_index(p, '/') {
        Some(i) => i + 1,
        None => 0,
    };
    String::from_str(p.substring_char(start, len))
}

/// `b` placed under the directory `a`.
pub fn join(a: &str, b: &str) -> (r: String)
    ensures
        r@ == join_path(a@, b@),
{
    let mut r = String::from_str(a);
    r.append("/");
    r.append(b);
    proof {
        reveal_strlit("/");
    }
    r
}

/// `p` with the extension of its file name replaced by `e`, as
/// `Path::with_extension` does it.
pub fn with_extension(p: &str, e: &str) -> (r: String)
    ensures
        r@ == replace_extension(p@, e@),
{
    let len = p.unicode_len();
    proof {
        lemma_last_index_of(p@, '/');
    }
    let start: usize = match last_index(p, '/') {
        Some(i) => i + 1,
        None => 0,
    };
    proof {
        lemma_last_index_of(p@, '/');
    }
    let name = p.substring_char(start, len);
    proof {
        lemma_last_index_of(name@, '.');
    }
    let keep: usize = match last_index(name, '.') {
        Some(d) => if d > 0 {
            start + d
        } else {
            len
        },
        None => len,
    };
    proof {
        lemma_last_index_of(name@, '.');
    }
    let mut r = String::from_str(p.substring_char(0, keep));
    if e.unicode_len() > 0 {
        r.append(".");
        r.append(e);
        proof {
            reveal_strlit(".");
        }
    }
    r
}

} // verus!
