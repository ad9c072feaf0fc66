//! What a push has to do, computed from plain data: which remote
//! directories to create and which remote files a mirror deletes.

use vstd::prelude::*;
use crate::listing::string_views;
use crate::pull::{path_under, pull_rel_path_of, strip_prefix_of, under};
use crate::text::{
    chars_eq, from_chars, push_all, to_chars, trim_end_char, trim_end_chars, trim_start_char,
    trim_start_chars,
};

verus! {

// ------------------------------------------------------------ string order

/// `a < b` in the order of `String`: byte-wise on UTF-8, which is the order
/// of the characters' code points, a proper prefix coming first.
pub open spec fn chars_lt(a: Seq<char>, b: Seq<char>) -> bool
    decreases a.len(),
{
    if a.len() == 0 {
        b.len() > 0
    } else if b.len() == 0 {
        false
    } else if a[0] != b[0] {
        a[0] < b[0]
    } else {
        chars_lt(a.drop_first(), b.drop_first())
    }
}

pub proof fn lemma_lt_irreflexive(a: Seq<char>)
    ensures
        !chars_lt(a, a),
    decreases a.len(),
{
    if a.len() > 0 {
        lemma_lt_irreflexive(a.drop_first());
    }
}

pub proof fn lemma_lt_transitive(a: Seq<char>, b: Seq<char>, c: Seq<char>)
    requires
        chars_lt(a, b),
        chars_lt(b, c),
    ensures
        chars_lt(a, c),
    decreases a.len(),
{
    if a.len() > 0 && b.len() > 0 && c.len() > 0 && a[0] == b[0] && b[0] == c[0] {
        lemma_lt_transitive(a.drop_first(), b.drop_first(), c.drop_first());
    }
}

pub proof fn lemma_lt_total(a: Seq<char>, b: Seq<char>)
    ensures
        a == b || chars_lt(a, b) || chars_lt(b, a),
    decreases a.len(),
{
    if a.len() > 0 && b.len() > 0 {
        if a[0] == b[0] {
            lemma_lt_total(a.drop_first(), b.drop_first());
            if a.drop_first() == b.drop_first() {
                assert(a =~= seq![a[0]] + a.drop_first());
                assert(b =~= seq![b[0]] + b.drop_first());
            }
        }
    } else if a.len() == 0 && b.len() == 0 {
        assert(a =~= b);
    }
}

pub proof fn lemma_lt_asymmetric(a: Seq<char>, b: Seq<char>)
    requires
        chars_lt(a, b),
    ensures
        !chars_lt(b, a),
{
    if chars_lt(b, a) {
        lemma_lt_transitive(a, b, a);
        lemma_lt_irreflexive(a);
    }
}

/// `a < b` in the order of `String`.
pub fn less_than(a: &[char], b: &[char]) -> (r: bool)
    ensures
        r == chars_lt(a@, b@),
{
    let mut i: usize = 0;
    proof {
        assert(a@.skip(0) =~= a@);
        assert(b@.skip(0) =~= b@);
    }
    while i < a.len() && i < b.len() && a[i] == b[i]
        invariant
            i <= a@.len(),
            i <= b@.len(),
            chars_lt(a@, b@) == chars_lt(a@.skip(i as int), b@.skip(i as int)),
        decreases a@.len() - i,
    {
        proof {
            assert(a@.skip(i as int).drop_first() =~= a@.skip(i + 1));
            assert(b@.skip(i as int).drop_first() =~= b@.skip(i + 1));
        }
        i = i + 1;
    }
    if i == a.len() {
        i < b.len()
    } else if i == b.len() {
        false
    } else {
        proof {
            assert(a@.skip(i as int)[0] == a@[i as int]);
            assert(b@.skip(i as int)[0] == b@[i as int]);
        }
        a[i] < b[i]
    }
}

/// Strictly increasing in the order of `String`.
pub open spec fn strictly_sorted(s: Seq<Seq<char>>) -> bool {
    forall|i: int, j: int| 0 <= i < j < s.len() ==> chars_lt(#[trigger] s[i], #[trigger] s[j])
}

// ------------------------------------------------------- upload directories

/// What `std::path::Path::parent` gives for the path `p`.
pub uninterp spec fn std_path_parent(p: Seq<char>) -> Option<Seq<char>>;

/// `Path::new(p).parent()`, converted back to a string (the path came from
/// a string, so the conversion is exact). What `parent` computes is left to
/// the name `std_path_parent`.
#[verifier::external_body]
pub(crate) fn path_parent(p: &str) -> (r: Option<String>)
    ensures
        std_path_parent(p@) == match r {
            Some(s) => Some(s@),
            None => None::<Seq<char>>,
        },
{
    std::path::Path::new(p).parent().map(|q| q.to_string_lossy().to_string())
}

/// The directory a relative path lies in, when it has a non-empty one.
pub open spec fn dir_of(rel: Seq<char>) -> Option<Seq<char>> {
    match std_path_parent(rel) {
        Some(d) => if d.len() > 0 {
            Some(d)
        } else {
            None
        },
        None => None,
    }
}

/// `d` is the directory of one of `rels`.
pub open spec fn is_dir_of_some(rels: Seq<Seq<char>>, d: Seq<char>) -> bool {
    exists|i: int| 0 <= i < rels.len() && dir_of(#[trigger] rels[i]) == Some(d)
}

/// `s` lists, in the order of `String` and each once, the directories of `rels`.
pub open spec fn lists_dirs_of(s: Seq<Seq<char>>, rels: Seq<Seq<char>>) -> bool {
    &&& strictly_sorted(s)
    &&& forall|d: Seq<char>| s.contains(d) <==> is_dir_of_some(rels, d)
}

/// The directories of `rels`, each once, in the order of `String`.
pub open spec fn sorted_dirs(rels: Seq<Seq<char>>) -> Seq<Seq<char>> {
    choose|s: Seq<Seq<char>>| lists_dirs_of(s, rels)
}

/// Two strictly sorted sequences with the same elements are equal.
pub proof fn lemma_sorted_unique(s: Seq<Seq<char>>, t: Seq<Seq<char>>)
    requires
        strictly_sorted(s),
        strictly_sorted(t),
        forall|x: Seq<char>| s.contains(x) <==> t.contains(x),
    ensures
        s == t,
    decreases s.len(),
{
    if s.len() == 0 {
        if t.len() > 0 {
            assert(t.contains(t[0]));
        }
        assert(s =~= t);
    } else {
        assert(s.contains(s[0]));
        let j = choose|j: int| 0 <= j < t.len() && t[j] == s[0];
        assert(t.contains(t[0]));
        let i = choose|i: int| 0 <= i < s.len() && s[i] == t[0];
        if j > 0 {
            assert(chars_lt(t[0], t[j]));
            if i > 0 {
                assert(chars_lt(s[0], s[i]));
                lemma_lt_asymmetric(t[0], s[0]);
            } else {
                lemma_lt_irreflexive(s[0]);
            }
        }
        assert(t[0] == s[0]);
        let s1 = s.drop_first();
        let t1 = t.drop_first();
        assert forall|x: Seq<char>| s1.contains(x) <==> t1.contains(x) by {
            if s1.contains(x) {
                let a = choose|a: int| 0 <= a < s1.len() && s1[a] == x;
                assert(s[a + 1] == x);
                assert(chars_lt(s[0], x));
                assert(t.contains(x));
                let b = choose|b: int| 0 <= b < t.len() && t[b] == x;
                if b == 0 {
                    lemma_lt_irreflexive(x);
                }
                assert(t1[b - 1] == x);
            }
            if t1.contains(x) {
                let a = choose|a: int| 0 <= a < t1.len() && t1[a] == x;
                assert(t[a + 1] == x);
                assert(chars_lt(t[0], x));
                assert(s.contains(x));
                let b = choose|b: int| 0 <= b < s.len() && s[b] == x;
                if b == 0 {
                    lemma_lt_irreflexive(x);
                }
                assert(s1[b - 1] == x);
            }
        }
        lemma_sorted_unique(s1, t1);
        assert(s =~= seq![s[0]] + s1);
        assert(t =~= seq![t[0]] + t1);
    }
}

/// The non-empty parent directory, if any.
pub open spec fn nonempty_dir(parent: Option<Seq<char>>) -> Option<Seq<char>> {
    match parent {
        Some(d) => if d.len() > 0 {
            Some(d)
        } else {
            None
        },
        None => None,
    }
}

/// `d` is one of the non-empty `parents`.
pub open spec fn is_some_parent(parents: Seq<Option<Seq<char>>>, d: Seq<char>) -> bool {
    exists|i: int| 0 <= i < parents.len() && nonempty_dir(#[trigger] parents[i]) == Some(d)
}

/// The views of optional strings.
pub open spec fn option_views(v: Seq<Option<String>>) -> Seq<Option<Seq<char>>> {
    v.map_values(|o: Option<String>| match o {
        Some(s) => Some(s@),
        None => None::<Seq<char>>,
    })
}

/// One more parent: `d` is among the first `k + 1` exactly when it is among
/// the first `k` or is the `k`-th.
proof fn lemma_parent_step(ps: Seq<Option<Seq<char>>>, k: int, d: Seq<char>)
    requires
        0 <= k < ps.len(),
    ensures
        is_some_parent(ps.take(k + 1), d) <==> (is_some_parent(ps.take(k), d) || nonempty_dir(ps[k]) == Some(d)),
{
    if is_some_parent(ps.take(k + 1), d) {
        let i = choose|i: int| 0 <= i < ps.take(k + 1).len() && nonempty_dir(#[trigger] ps.take(k + 1)[i]) == Some(d);
        if i < k {
            assert(ps.take(k)[i] == ps.take(k + 1)[i]);
        }
    }
    if is_some_parent(ps.take(k), d) {
        let i = choose|i: int| 0 <= i < ps.take(k).len() && nonempty_dir(#[trigger] ps.take(k)[i]) == Some(d);
        assert(ps.take(k + 1)[i] == ps.take(k)[i]);
    }
    if nonempty_dir(ps[k]) == Some(d) {
        assert(ps.take(k + 1)[k] == ps[k]);
    }
}

/// The non-empty directories among `parents` (what `Path::parent` gave for
/// each file to upload): each once, in the order of `String`.
pub fn sorted_unique_dirs(parents: &Vec<Option<String>>) -> (r: Vec<String>)
    ensures
        strictly_sorted(string_views(r@)),
        forall|d: Seq<char>| string_views(r@).contains(d) <==> is_some_parent(option_views(parents@), d),
{
    let ghost ps = option_views(parents@);
    let mut out: Vec<String> = Vec::new();
    let mut k: usize = 0;
    while k < parents.len()
        invariant
            ps == option_views(parents@),
            k <= parents@.len(),
            strictly_sorted(string_views(out@)),
            forall|d: Seq<char>| string_views(out@).contains(d) <==> is_some_parent(ps.take(k as int), d),
        decreases parents@.len() - k,
    {
        match &parents[k] {
            Some(p) => {
                let pc = to_chars(p.as_str());
                if pc.len() > 0 {
                    assert(nonempty_dir(ps[k as int]) == Some(p@));
                    let owned = p.clone();
                    assert(owned@ == p@);
                    insert_sorted(&mut out, owned);
                    assert forall|d: Seq<char>| string_views(out@).contains(d) <==> is_some_parent(ps.take(k + 1), d) by {
                        lemma_parent_step(ps, k as int, d);
                    }
                } else {
                    assert(nonempty_dir(ps[k as int]) is None);
                    assert forall|d: Seq<char>| string_views(out@).contains(d) <==> is_some_parent(ps.take(k + 1), d) by {
                        lemma_parent_step(ps, k as int, d);
                    }
                }
            },
            None => {
                assert(nonempty_dir(ps[k as int]) is None);
                assert forall|d: Seq<char>| string_views(out@).contains(d) <==> is_some_parent(ps.take(k + 1), d) by {
                    lemma_parent_step(ps, k as int, d);
                }
            },
        }
        k = k + 1;
    }
    proof {
        assert(ps.take(parents@.len() as int) =~= ps);
    }
    out
}

/// The directories that files to upload lie in: each once, in the order of
/// `String`.
pub fn upload_dirs(rels: &Vec<String>) -> (r: Vec<String>)
    ensures
        string_views(r@) == sorted_dirs(string_views(rels@)),
        lists_dirs_of(string_views(r@), string_views(rels@)),
{
    let ghost rs = string_views(rels@);
    let mut parents: Vec<Option<String>> = Vec::new();
    let mut k: usize = 0;
    while k < rels.len()
        invariant
            rs == string_views(rels@),
            k <= rels@.len(),
            parents@.len() == k,
            forall|j: int| 0 <= j < k ==> option_views(parents@)[j] == std_path_parent(#[trigger] rs[j]),
        decreases rels@.len() - k,
    {
        let p = path_parent(rels[k].as_str());
        let ghost before = parents@;
        parents.push(p);
        proof {
            assert forall|j: int| 0 <= j < k + 1 implies option_views(parents@)[j] == std_path_parent(#[trigger] rs[j]) by {
                if j < k {
                    assert(parents@[j] == before[j]);
                }
            }
        }
        k = k + 1;
    }
    let out = sorted_unique_dirs(&parents);
    proof {
        let ps = option_views(parents@);
        assert forall|d: Seq<char>| is_some_parent(ps, d) <==> is_dir_of_some(rs, d) by {
            if is_some_parent(ps, d) {
                let i = choose|i: int| 0 <= i < ps.len() && nonempty_dir(#[trigger] ps[i]) == Some(d);
                assert(dir_of(rs[i]) == Some(d));
            }
            if is_dir_of_some(rs, d) {
                let i = choose|i: int| 0 <= i < rs.len() && dir_of(#[trigger] rs[i]) == Some(d);
                assert(nonempty_dir(ps[i]) == Some(d));
            }
        }
        let o = string_views(out@);
        assert(lists_dirs_of(o, rs));
        let c = sorted_dirs(rs);
        assert(lists_dirs_of(c, rs));
        lemma_sorted_unique(o, c);
    }
    out
}

/// Adds `d` to a strictly sorted list of strings, unless it is there.
fn insert_sorted(out: &mut Vec<String>, d: String)
    requires
        strictly_sorted(string_views(old(out)@)),
    ensures
        strictly_sorted(string_views(final(out)@)),
        forall|x: Seq<char>| string_views(final(out)@).contains(x) <==> (string_views(old(out)@).contains(x) || x == d@),
{
    let dc = to_chars(d.as_str());
    let ghost s0 = string_views(out@);
    let mut i: usize = 0;
    while i < out.len() && less_than(to_chars(out[i].as_str()).as_slice(), dc.as_slice())
        invariant
            s0 == string_views(out@),
            out@ == old(out)@,
            dc@ == d@,
            i <= out@.len(),
            forall|j: int| 0 <= j < i ==> chars_lt(#[trigger] s0[j], d@),
        decreases out@.len() - i,
    {
        i = i + 1;
    }
    if i < out.len() {
        let oc = to_chars(out[i].as_str());
        if chars_eq(oc.as_slice(), dc.as_slice()) {
            assert(s0[i as int] == d@);
            assert(s0.contains(d@));
            return;
        }
        proof {
            lemma_lt_total(s0[i as int], d@);
        }
    }
    out.insert(i, d);
    proof {
        let s1 = string_views(out@);
        assert(s1 =~= s0.insert(i as int, d@));
        assert forall|a: int, b: int| 0 <= a < b < s1.len() implies chars_lt(#[trigger] s1[a], #[trigger] s1[b]) by {
            if b < i {
            } else if b == i {
            } else if a < i {
                assert(s1[b] == s0[b - 1]);
                if b - 1 > i {
                    lemma_lt_transitive(d@, s0[i as int], s0[b - 1]);
                }
                lemma_lt_transitive(s0[a], d@, s1[b]);
            } else if a == i {
                if b - 1 > i {
                    lemma_lt_transitive(d@, s0[i as int], s0[b - 1]);
                }
            } else {
            }
        }
        assert forall|x: Seq<char>| s1.contains(x) <==> (s0.contains(x) || x == d@) by {
            if s1.contains(x) {
                let j = choose|j: int| 0 <= j < s1.len() && s1[j] == x;
                if j < i {
                    assert(s0[j] == x);
                } else if j > i {
                    assert(s0[j - 1] == x);
                }
            }
            if s0.contains(x) {
                let j = choose|j: int| 0 <= j < s0.len() && s0[j] == x;
                if j < i {
                    assert(s1[j] == x);
                } else {
                    assert(s1[j + 1] == x);
                }
            }
            if x == d@ {
                assert(s1[i as int] == x);
            }
        }
    }
}

// ------------------------------------------------------------ directories

/// The prefixes of `t[..k]` that end just before a `/`, in order.
pub open spec fn prefixes_upto(t: Seq<char>, k: int) -> Seq<Seq<char>>
    decreases k,
{
    if k <= 0 {
        seq![]
    } else if t[k - 1] == '/' {
        prefixes_upto(t, k - 1).push(t.take(k - 1))
    } else {
        prefixes_upto(t, k - 1)
    }
}

/// The directories from the top down to `t`: every prefix of `t` that ends
/// just before a `/`, then `t` itself.
pub open spec fn slash_prefixes(t: Seq<char>) -> Seq<Seq<char>> {
    prefixes_upto(t, t.len() as int).push(t)
}

/// The remote form of an upload directory: the target's remote folder
/// (without trailing `/`), `/`, the directory, without leading `/`.
pub open spec fn mkdir_target(remote_path: Seq<char>, dir: Seq<char>) -> Seq<char> {
    trim_start_char(under(trim_end_char(remote_path, '/'), dir), '/')
}

/// The remote directories to create, parents first, for each upload
/// directory in turn.
pub open spec fn mkdir_plan(remote_path: Seq<char>, dirs: Seq<Seq<char>>) -> Seq<Seq<char>>
    decreases dirs.len(),
{
    if dirs.len() == 0 {
        seq![]
    } else {
        mkdir_plan(remote_path, dirs.drop_last()) + slash_prefixes(mkdir_target(remote_path, dirs.last()))
    }
}

/// Appends the directories from the top down to `t`.
fn push_prefixes(out: &mut Vec<String>, t: &Vec<char>)
    ensures
        string_views(final(out)@) == string_views(old(out)@) + slash_prefixes(t@),
{
    let ghost o0 = string_views(out@);
    let mut k: usize = 0;
    while k < t.len()
        invariant
            k <= t@.len(),
            string_views(out@) == o0 + prefixes_upto(t@, k as int),
        decreases t@.len() - k,
    {
        if t[k] == '/' {
            let mut prefix: Vec<char> = Vec::new();
            let mut j: usize = 0;
            while j < k
                invariant
                    j <= k < t@.len(),
                    prefix@ == t@.take(j as int),
                decreases k - j,
            {
                prefix.push(t[j]);
                j = j + 1;
                assert(prefix@ =~= t@.take(j as int));
            }
            let ghost before = out@;
            out.push(from_chars(prefix.as_slice()));
            assert(string_views(out@) =~= string_views(before).push(prefix@));
        }
        k = k + 1;
    }
    let ghost before = out@;
    out.push(from_chars(t.as_slice()));
    assert(string_views(out@) =~= string_views(before).push(t@));
}

/// The remote directories to create for the upload directories `dirs`: for
/// each, the remote folder joined with it, every level from the top down
/// (the same directory may come more than once).
pub fn mkdir_paths(remote_path: &str, dirs: &Vec<String>) -> (r: Vec<String>)
    ensures
        string_views(r@) == mkdir_plan(remote_path@, string_views(dirs@)),
{
    let rp = to_chars(remote_path);
    let base = trim_end_chars(rp.as_slice(), '/');
    let base_s = from_chars(base.as_slice());
    let ghost ds = string_views(dirs@);
    let mut out: Vec<String> = Vec::new();
    let mut i: usize = 0;
    while i < dirs.len()
        invariant
            ds == string_views(dirs@),
            base_s@ == trim_end_char(remote_path@, '/'),
            i <= dirs@.len(),
            string_views(out@) == mkdir_plan(remote_path@, ds.take(i as int)),
        decreases dirs@.len() - i,
    {
        let joined = path_under(base_s.as_str(), dirs[i].as_str());
        let jc = to_chars(joined.as_str());
        let t = trim_start_chars(jc.as_slice(), '/');
        push_prefixes(&mut out, &t);
        proof {
            assert(ds.take(i + 1).drop_last() =~= ds.take(i as int));
            assert(ds.take(i + 1).last() == ds[i as int]);
        }
        i = i + 1;
    }
    proof {
        assert(ds.take(dirs@.len() as int) =~= ds);
    }
    out
}

// --------------------------------------------------------------- mirroring

/// The remote form of a local file: the remote folder (without trailing
/// `/`), `/`, the relative path.
pub open spec fn remote_form(remote_path: Seq<char>, rel: Seq<char>) -> Seq<char> {
    under(trim_end_char(remote_path, '/'), rel)
}

/// `f` is the remote form of one of the local files.
pub open spec fn is_local_file(remote_path: Seq<char>, rels: Seq<Seq<char>>, f: Seq<char>) -> bool {
    exists|i: int| 0 <= i < rels.len() && remote_form(remote_path, #[trigger] rels[i]) == f
}

/// The remote files a mirror deletes: those that are not the remote form of
/// a local file, in listing order.
pub open spec fn mirror_deletions_of(remote_path: Seq<char>, rels: Seq<Seq<char>>, files: Seq<Seq<char>>) -> Seq<Seq<char>>
    decreases files.len(),
{
    if files.len() == 0 {
        seq![]
    } else {
        let before = mirror_deletions_of(remote_path, rels, files.drop_last());
        if is_local_file(remote_path, rels, files.last()) {
            before
        } else {
            before.push(files.last())
        }
    }
}

/// The remote files a mirror deletes: every listed file that is not the
/// remote form of a local file.
pub fn mirror_deletions(remote_path: &str, rels: &Vec<String>, files: &Vec<String>) -> (r: Vec<String>)
    ensures
        string_views(r@) == mirror_deletions_of(remote_path@, string_views(rels@), string_views(files@)),
{
    let rp = to_chars(remote_path);
    let base = trim_end_chars(rp.as_slice(), '/');
    let base_s = from_chars(base.as_slice());
    let ghost rs = string_views(rels@);
    let ghost fs = string_views(files@);
    let mut locals: Vec<Vec<char>> = Vec::new();
    let mut i: usize = 0;
    while i < rels.len()
        invariant
            rs == string_views(rels@),
            base_s@ == trim_end_char(remote_path@, '/'),
            i <= rels@.len(),
            locals@.len() == i,
            forall|j: int| 0 <= j < i ==> (#[trigger] locals@[j])@ == remote_form(remote_path@, rs[j]),
        decreases rels@.len() - i,
    {
        let l = path_under(base_s.as_str(), rels[i].as_str());
        locals.push(to_chars(l.as_str()));
        i = i + 1;
    }
    let mut out: Vec<String> = Vec::new();
    let mut k: usize = 0;
    while k < files.len()
        invariant
            rs == string_views(rels@),
            fs == string_views(files@),
            locals@.len() == rs.len(),
            forall|j: int| 0 <= j < rs.len() ==> (#[trigger] locals@[j])@ == remote_form(remote_path@, rs[j]),
            k <= files@.len(),
            string_views(out@) == mirror_deletions_of(remote_path@, rs, fs.take(k as int)),
        decreases files@.len() - k,
    {
        let fc = to_chars(files[k].as_str());
        let mut found = false;
        let mut j: usize = 0;
        while j < locals.len()
            invariant
                locals@.len() == rs.len(),
                forall|m: int| 0 <= m < rs.len() ==> (#[trigger] locals@[m])@ == remote_form(remote_path@, rs[m]),
                fc@ == fs[k as int],
                k < fs.len(),
                j <= locals@.len(),
                found == exists|m: int| 0 <= m < j && remote_form(remote_path@, #[trigger] rs[m]) == fs[k as int],
            decreases locals@.len() - j,
        {
            if chars_eq(locals[j].as_slice(), fc.as_slice()) {
                found = true;
            }
            j = j + 1;
        }
        proof {
            assert(fs.take(k + 1).drop_last() =~= fs.take(k as int));
            assert(fs.take(k + 1).last() == fs[k as int]);
        }
        if !found {
            let ghost before = out@;
            out.push(files[k].clone());
            assert(string_views(out@) =~= string_views(before).push(fs[k as int]));
        }
        k = k + 1;
    }
    proof {
        assert(fs.take(files@.len() as int) =~= fs);
    }
    out
}


/// A mirror deletes exactly the listed remote files that are not the remote
/// form of a local file: every local file's remote copy is kept.
pub proof fn law_mirror_deletes_only_missing(remote_path: Seq<char>, rels: Seq<Seq<char>>, files: Seq<Seq<char>>)
    ensures
        forall|f: Seq<char>| #[trigger] mirror_deletions_of(remote_path, rels, files).contains(f)
            <==> (files.contains(f) && !is_local_file(remote_path, rels, f)),
    decreases files.len(),
{
    if files.len() > 0 {
        let init = files.drop_last();
        law_mirror_deletes_only_missing(remote_path, rels, init);
        let before = mirror_deletions_of(remote_path, rels, init);
        let d = mirror_deletions_of(remote_path, rels, files);
        assert forall|f: Seq<char>| d.contains(f) <==> (files.contains(f) && !is_local_file(remote_path, rels, f)) by {
            assert(files =~= init.push(files.last()));
            if files.contains(f) {
                let i = choose|i: int| 0 <= i < files.len() && files[i] == f;
                if i < files.len() - 1 {
                    assert(init[i] == f);
                    assert(init.contains(f));
                }
            }
            if init.contains(f) {
                let i = choose|i: int| 0 <= i < init.len() && init[i] == f;
                assert(files[i] == f);
            }
            if !is_local_file(remote_path, rels, files.last()) {
                assert(d == before.push(files.last()));
                if before.contains(f) {
                    let i = choose|i: int| 0 <= i < before.len() && before[i] == f;
                    assert(d[i] == f);
                }
                if d.contains(f) && f != files.last() {
                    let i = choose|i: int| 0 <= i < d.len() && d[i] == f;
                    assert(i < before.len());
                    assert(before[i] == f);
                }
                assert(d[before.len() as int] == files.last());
            }
        }
    }
}


/// Some entry before position `j` of `s` is `q`.
pub open spec fn created_before(s: Seq<Seq<char>>, j: int, q: Seq<char>) -> bool {
    exists|i: int| 0 <= i < j && #[trigger] s[i] == q
}

/// Every directory above `p` (each prefix of `p` that ends just before a
/// `/`) is among the first `j` entries of `s`.
pub open spec fn parents_before(s: Seq<Seq<char>>, j: int, p: Seq<char>) -> bool {
    forall|k: int| 0 <= k < p.len() && #[trigger] p[k] == '/' ==> created_before(s, j, p.take(k))
}

proof fn lemma_prefixes_upto(t: Seq<char>, m: int)
    requires
        0 <= m <= t.len(),
    ensures
        forall|j: int| 0 <= j < prefixes_upto(t, m).len() ==> {
            let e = #[trigger] prefixes_upto(t, m)[j];
            &&& e.len() < m
            &&& t[e.len() as int] == '/'
            &&& e == t.take(e.len() as int)
            &&& parents_before(prefixes_upto(t, m), j, e)
        },
        forall|k: int| 0 <= k < m && #[trigger] t[k] == '/' ==> created_before(
            prefixes_upto(t, m),
            prefixes_upto(t, m).len() as int,
            t.take(k),
        ),
    decreases m,
{
    if m > 0 {
        lemma_prefixes_upto(t, m - 1);
        let s0 = prefixes_upto(t, m - 1);
        let s1 = prefixes_upto(t, m);
        if t[m - 1] == '/' {
            let n0 = s0.len() as int;
            assert(s1 == s0.push(t.take(m - 1)));
            assert forall|j: int| 0 <= j < s1.len() implies {
                let e = #[trigger] s1[j];
                &&& e.len() < m
                &&& t[e.len() as int] == '/'
                &&& e == t.take(e.len() as int)
                &&& parents_before(s1, j, e)
            } by {
                let e = s1[j];
                if j < n0 {
                    assert(e == s0[j]);
                    assert forall|k: int| 0 <= k < e.len() && #[trigger] e[k] == '/' implies created_before(s1, j, e.take(k)) by {
                        assert(created_before(s0, j, e.take(k)));
                        let i = choose|i: int| 0 <= i < j && #[trigger] s0[i] == e.take(k);
                        assert(s1[i] == s0[i]);
                    }
                } else {
                    assert(e == t.take(m - 1));
                    assert(e.len() == m - 1);
                    assert forall|k: int| 0 <= k < e.len() && #[trigger] e[k] == '/' implies created_before(s1, j, e.take(k)) by {
                        assert(t[k] == e[k]);
                        assert(created_before(s0, n0, t.take(k)));
                        let i = choose|i: int| 0 <= i < n0 && #[trigger] s0[i] == t.take(k);
                        assert(s1[i] == s0[i]);
                        assert(e.take(k) =~= t.take(k));
                    }
                }
            }
            assert forall|k: int| 0 <= k < m && #[trigger] t[k] == '/' implies created_before(s1, s1.len() as int, t.take(k)) by {
                if k < m - 1 {
                    let i = choose|i: int| 0 <= i < n0 && #[trigger] s0[i] == t.take(k);
                    assert(s1[i] == s0[i]);
                } else {
                    assert(s1[n0] == t.take(k));
                }
            }
        } else {
            assert(s1 == s0);
        }
    }
}

proof fn lemma_slash_prefixes(t: Seq<char>)
    ensures
        forall|j: int| 0 <= j < slash_prefixes(t).len() ==> parents_before(slash_prefixes(t), j, #[trigger] slash_prefixes(t)[j]),
{
    let n = t.len() as int;
    lemma_prefixes_upto(t, n);
    let s0 = prefixes_upto(t, n);
    let s1 = slash_prefixes(t);
    assert forall|j: int| 0 <= j < s1.len() implies parents_before(s1, j, #[trigger] s1[j]) by {
        let e = s1[j];
        assert forall|k: int| 0 <= k < e.len() && #[trigger] e[k] == '/' implies created_before(s1, j, e.take(k)) by {
            if j < s0.len() {
                assert(e == s0[j]);
                assert(parents_before(s0, j, s0[j]));
                assert(created_before(s0, j, e.take(k)));
                let i = choose|i: int| 0 <= i < j && #[trigger] s0[i] == e.take(k);
                assert(s1[i] == s0[i]);
            } else {
                assert(e == t);
                assert(created_before(s0, s0.len() as int, t.take(k)));
                let i = choose|i: int| 0 <= i < s0.len() && #[trigger] s0[i] == t.take(k);
                assert(s1[i] == s0[i]);
            }
        }
    }
}

/// Directories are created from the top down: every directory a push
/// creates comes after each directory above it (each prefix ending just
/// before a `/`).
#[verifier::spinoff_prover]
pub proof fn law_mkdir_parents_first(remote_path: Seq<char>, dirs: Seq<Seq<char>>)
    ensures
        forall|i: int| 0 <= i < mkdir_plan(remote_path, dirs).len() ==> parents_before(
            mkdir_plan(remote_path, dirs),
            i,
            #[trigger] mkdir_plan(remote_path, dirs)[i],
        ),
    decreases dirs.len(),
{
    if dirs.len() > 0 {
        let init = dirs.drop_last();
        law_mkdir_parents_first(remote_path, init);
        let p0 = mkdir_plan(remote_path, init);
        let t = mkdir_target(remote_path, dirs.last());
        let sp = slash_prefixes(t);
        lemma_slash_prefixes(t);
        let p = mkdir_plan(remote_path, dirs);
        assert(p == p0 + sp);
        let n0 = p0.len() as int;
        assert forall|i: int| 0 <= i < p.len() implies parents_before(p, i, #[trigger] p[i]) by {
            let e = p[i];
            if i < n0 {
                assert(e == p0[i]);
                assert(parents_before(p0, i, p0[i]));
                assert forall|k: int| 0 <= k < e.len() && #[trigger] e[k] == '/' implies created_before(p, i, e.take(k)) by {
                    assert(created_before(p0, i, e.take(k)));
                    let a = choose|a: int| 0 <= a < i && #[trigger] p0[a] == e.take(k);
                    assert(p[a] == p0[a]);
                }
            } else {
                let j = i - n0;
                assert(e == sp[j]);
                assert(parents_before(sp, j, sp[j]));
                assert forall|k: int| 0 <= k < e.len() && #[trigger] e[k] == '/' implies created_before(p, i, e.take(k)) by {
                    assert(created_before(sp, j, e.take(k)));
                    let a = choose|a: int| 0 <= a < j && #[trigger] sp[a] == e.take(k);
                    assert(p[n0 + a] == sp[a]);
                }
            }
        }
    }
}


proof fn lemma_trim_start_concat(x: Seq<char>, y: Seq<char>, c: char)
    ensures
        trim_start_char(x, c).len() > 0 ==> trim_start_char(x + y, c) == trim_start_char(x, c) + y,
        trim_start_char(x, c).len() == 0 ==> trim_start_char(x + y, c) == trim_start_char(y, c),
    decreases x.len(),
{
    if x.len() == 0 {
        assert(x + y =~= y);
    } else {
        assert((x + y).drop_first() =~= x.drop_first() + y);
        assert((x + y)[0] == x[0]);
        if x[0] == c {
            lemma_trim_start_concat(x.drop_first(), y, c);
        }
    }
}

/// A pushed file comes back to the same place: the path a pull takes, below
/// the target's remote folder, for the remote copy of a local file is that
/// file's relative path (one that does not start with `/`, as relative
/// paths do not).
pub proof fn law_pull_maps_back_pushed_path(remote_path: Seq<char>, rel: Seq<char>)
    requires
        rel.len() == 0 || rel[0] != '/',
    ensures
        pull_rel_path_of(remote_form(remote_path, rel), remote_path) == rel,
{
    let base = trim_end_char(remote_path, '/');
    let b = trim_start_char(base, '/');
    let f = remote_form(remote_path, rel);
    reveal_strlit("/");
    let tail = "/"@ + rel;
    assert(f =~= base + tail);
    lemma_trim_start_concat(base, tail, '/');
    let t = trim_start_char(f, '/');
    assert(tail.len() > 0 && tail[0] == '/');
    assert(tail.drop_first() =~= rel);
    assert(trim_start_char(tail, '/') == trim_start_char(rel, '/'));
    assert(trim_start_char(rel, '/') == rel);
    if b.len() > 0 {
        assert(t == b + tail);
        assert((b + tail).take(b.len() as int) =~= b);
        assert((b + tail).skip(b.len() as int) =~= tail);
        assert(strip_prefix_of(t, b) == Some(tail));
    } else {
        assert(t == rel);
        assert(t.take(0) =~= b);
        assert(t.skip(0) =~= t);
        assert(strip_prefix_of(t, b) == Some(t));
    }
}


/// A mirror never deletes the remote copy of a local file.
pub proof fn law_mirror_keeps_local_copies(remote_path: Seq<char>, rels: Seq<Seq<char>>, files: Seq<Seq<char>>, i: int)
    requires
        0 <= i < rels.len(),
    ensures
        !mirror_deletions_of(remote_path, rels, files).contains(remote_form(remote_path, rels[i])),
{
    law_mirror_deletes_only_missing(remote_path, rels, files);
    assert(is_local_file(remote_path, rels, remote_form(remote_path, rels[i])));
}


// ------------------------------------------------------- sorted directories exist

/// `d` put into the strictly sorted `s` at its place (nothing when there).
pub open spec fn insert_dir(s: Seq<Seq<char>>, d: Seq<char>) -> Seq<Seq<char>>
    decreases s.len(),
{
    if s.len() == 0 {
        seq![d]
    } else if d == s[0] {
        s
    } else if chars_lt(d, s[0]) {
        seq![d] + s
    } else {
        seq![s[0]] + insert_dir(s.drop_first(), d)
    }
}

proof fn lemma_sorted_cons(a: Seq<char>, t: Seq<Seq<char>>)
    requires
        strictly_sorted(t),
        forall|x: Seq<char>| t.contains(x) ==> chars_lt(a, x),
    ensures
        strictly_sorted(seq![a] + t),
{
    let u = seq![a] + t;
    assert forall|i: int, j: int| 0 <= i < j < u.len() implies chars_lt(#[trigger] u[i], #[trigger] u[j]) by {
        assert(u[j] == t[j - 1]);
        if i == 0 {
            assert(t.contains(t[j - 1]));
        } else {
            assert(u[i] == t[i - 1]);
        }
    }
}

proof fn lemma_insert_dir(s: Seq<Seq<char>>, d: Seq<char>)
    requires
        strictly_sorted(s),
    ensures
        strictly_sorted(insert_dir(s, d)),
        forall|x: Seq<char>| #[trigger] insert_dir(s, d).contains(x) <==> (s.contains(x) || x == d),
    decreases s.len(),
{
    let r = insert_dir(s, d);
    if s.len() == 0 {
        assert(r.contains(d) ==> r[0] == d);
        assert(r[0] == d);
    } else if d == s[0] {
        assert(s.contains(s[0]));
    } else if chars_lt(d, s[0]) {
        let t = s;
        assert forall|x: Seq<char>| t.contains(x) implies chars_lt(d, x) by {
            let i = choose|i: int| 0 <= i < t.len() && t[i] == x;
            if i > 0 {
                assert(chars_lt(s[0], s[i]));
                lemma_lt_transitive(d, s[0], x);
            }
        }
        lemma_sorted_cons(d, s);
        assert forall|x: Seq<char>| r.contains(x) <==> (s.contains(x) || x == d) by {
            if r.contains(x) {
                let i = choose|i: int| 0 <= i < r.len() && r[i] == x;
                if i > 0 {
                    assert(s[i - 1] == x);
                }
            }
            if s.contains(x) {
                let i = choose|i: int| 0 <= i < s.len() && s[i] == x;
                assert(r[i + 1] == x);
            }
            if x == d {
                assert(r[0] == d);
            }
        }
    } else {
        let rest = s.drop_first();
        assert(strictly_sorted(rest)) by {
            assert forall|i: int, j: int| 0 <= i < j < rest.len() implies chars_lt(#[trigger] rest[i], #[trigger] rest[j]) by {
                assert(rest[i] == s[i + 1] && rest[j] == s[j + 1]);
            }
        }
        lemma_insert_dir(rest, d);
        let t = insert_dir(rest, d);
        lemma_lt_total(d, s[0]);
        assert forall|x: Seq<char>| t.contains(x) implies chars_lt(s[0], x) by {
            if rest.contains(x) {
                let i = choose|i: int| 0 <= i < rest.len() && rest[i] == x;
                assert(s[i + 1] == x);
            }
        }
        lemma_sorted_cons(s[0], t);
        assert(r == seq![s[0]] + t);
        assert forall|x: Seq<char>| r.contains(x) <==> (s.contains(x) || x == d) by {
            if r.contains(x) {
                let i = choose|i: int| 0 <= i < r.len() && r[i] == x;
                if i > 0 {
                    assert(t[i - 1] == x);
                    assert(t.contains(x));
                    if rest.contains(x) {
                        let k = choose|k: int| 0 <= k < rest.len() && rest[k] == x;
                        assert(s[k + 1] == x);
                    }
                } else {
                    assert(s[0] == x);
                }
            }
            if s.contains(x) {
                let i = choose|i: int| 0 <= i < s.len() && s[i] == x;
                if i == 0 {
                    assert(r[0] == x);
                } else {
                    assert(rest[i - 1] == x);
                    assert(t.contains(x));
                    let k = choose|k: int| 0 <= k < t.len() && t[k] == x;
                    assert(r[k + 1] == x);
                }
            }
            if x == d {
                assert(t.contains(d));
                let k = choose|k: int| 0 <= k < t.len() && t[k] == d;
                assert(r[k + 1] == d);
            }
        }
    }
}

/// The directories of `rels`, inserted one after the other.
pub open spec fn dirs_built(rels: Seq<Seq<char>>) -> Seq<Seq<char>>
    decreases rels.len(),
{
    if rels.len() == 0 {
        seq![]
    } else {
        let s = dirs_built(rels.drop_last());
        match dir_of(rels.last()) {
            Some(d) => insert_dir(s, d),
            None => s,
        }
    }
}

proof fn lemma_dirs_built(rels: Seq<Seq<char>>)
    ensures
        lists_dirs_of(dirs_built(rels), rels),
    decreases rels.len(),
{
    if rels.len() > 0 {
        let init = rels.drop_last();
        lemma_dirs_built(init);
        let s = dirs_built(init);
        let r = dirs_built(rels);
        match dir_of(rels.last()) {
            Some(d) => lemma_insert_dir(s, d),
            None => {},
        }
        assert forall|x: Seq<char>| r.contains(x) <==> is_dir_of_some(rels, x) by {
            if is_dir_of_some(rels, x) {
                let i = choose|i: int| 0 <= i < rels.len() && dir_of(#[trigger] rels[i]) == Some(x);
                if i < rels.len() - 1 {
                    assert(init[i] == rels[i]);
                    assert(is_dir_of_some(init, x));
                }
            }
            if is_dir_of_some(init, x) {
                let i = choose|i: int| 0 <= i < init.len() && dir_of(#[trigger] init[i]) == Some(x);
                assert(rels[i] == init[i]);
            }
            if dir_of(rels.last()) == Some(x) {
                assert(dir_of(rels[rels.len() - 1]) == Some(x));
            }
        }
    } else {
        assert forall|x: Seq<char>| !is_dir_of_some(rels, x) by {}
    }
}

/// The directories of any list of files can be listed sorted and each once,
/// so [`sorted_dirs`] is such a list.
pub proof fn lemma_sorted_dirs_lists(rels: Seq<Seq<char>>)
    ensures
        lists_dirs_of(sorted_dirs(rels), rels),
{
    lemma_dirs_built(rels);
}

/// What the plan of directories to create holds: the levels of the targets
/// of its upload directories.
pub proof fn lemma_mkdir_plan_members(remote_path: Seq<char>, dirs: Seq<Seq<char>>, x: Seq<char>)
    ensures
        mkdir_plan(remote_path, dirs).contains(x) <==> exists|k: int|
            0 <= k < dirs.len() && #[trigger] slash_prefixes(mkdir_target(remote_path, dirs[k])).contains(x),
    decreases dirs.len(),
{
    if dirs.len() > 0 {
        let init = dirs.drop_last();
        lemma_mkdir_plan_members(remote_path, init, x);
        let p0 = mkdir_plan(remote_path, init);
        let sp = slash_prefixes(mkdir_target(remote_path, dirs.last()));
        let p = mkdir_plan(remote_path, dirs);
        assert(p == p0 + sp);
        if p.contains(x) {
            let i = choose|i: int| 0 <= i < p.len() && p[i] == x;
            if i < p0.len() {
                assert(p0[i] == x);
                let k = choose|k: int| 0 <= k < init.len() && #[trigger] slash_prefixes(mkdir_target(remote_path, init[k])).contains(x);
                assert(dirs[k] == init[k]);
            } else {
                assert(sp[i - p0.len()] == x);
                assert(sp.contains(x));
                assert(dirs[dirs.len() - 1] == dirs.last());
            }
        }
        if exists|k: int| 0 <= k < dirs.len() && #[trigger] slash_prefixes(mkdir_target(remote_path, dirs[k])).contains(x) {
            let k = choose|k: int| 0 <= k < dirs.len() && #[trigger] slash_prefixes(mkdir_target(remote_path, dirs[k])).contains(x);
            if k < dirs.len() - 1 {
                assert(init[k] == dirs[k]);
                assert(p0.contains(x));
                let i = choose|i: int| 0 <= i < p0.len() && p0[i] == x;
                assert(p[i] == x);
            } else {
                let i = choose|i: int| 0 <= i < sp.len() && sp[i] == x;
                assert(p[p0.len() + i] == x);
            }
        }
    }
}

} // verus!
