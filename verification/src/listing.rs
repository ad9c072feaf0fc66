//! Recursive listing of a remote directory, as a state machine: the library
//! says which directory to list next and the caller hands back each listing.

use vstd::prelude::*;
use crate::webdav::{child_path, child_path_of, RemoteItem, WebDAVClient, WebDAVError};

verus! {

/// An entry still to be handled: a file to report or a directory to list.
#[derive(Debug)]
pub struct PendingEntry {
    pub path: String,
    pub is_dir: bool,
}

/// A directory walk in progress. Entries are handled depth first, in the
/// order the server lists them: a directory's contents come right after it.
#[derive(Debug)]
pub struct RecursiveListing {
    /// The pending entries, the next one last.
    stack: Vec<PendingEntry>,
    /// The files found so far, in order.
    files: Vec<String>,
    /// The first failed directory listing, which ends the walk.
    error: Option<WebDAVError>,
}

/// A pending entry as a (path, is-directory) pair.
pub open spec fn entry_view(e: PendingEntry) -> (Seq<char>, bool) {
    (e.path@, e.is_dir)
}

/// The pending entries that listing `items` of directory `parent` adds, in
/// listing order.
pub open spec fn children_of(parent: Seq<char>, items: Seq<RemoteItem>) -> Seq<(Seq<char>, bool)> {
    items.map_values(|it: RemoteItem| (child_path_of(parent, it.name@), it.is_dir))
}

/// How many entries at the front of `f` are files.
pub open spec fn leading_files(f: Seq<(Seq<char>, bool)>) -> nat
    decreases f.len(),
{
    if f.len() == 0 || f[0].1 {
        0
    } else {
        1 + leading_files(f.drop_first())
    }
}

/// The paths of some entries.
pub open spec fn paths_of(f: Seq<(Seq<char>, bool)>) -> Seq<Seq<char>> {
    f.map_values(|e: (Seq<char>, bool)| e.0)
}

/// The views of some strings.
pub open spec fn string_views(v: Seq<String>) -> Seq<Seq<char>> {
    v.map_values(|s: String| s@)
}

impl RecursiveListing {
    /// The pending entries, the next one first.
    pub closed spec fn frontier(&self) -> Seq<(Seq<char>, bool)> {
        self.stack@.reverse().map_values(|e: PendingEntry| entry_view(e))
    }

    /// The files found so far.
    pub closed spec fn collected(&self) -> Seq<Seq<char>> {
        string_views(self.files@)
    }

    /// The failed listing that ended the walk, if any.
    pub closed spec fn failure(&self) -> Option<WebDAVError> {
        self.error
    }

    /// Hands out the next directory to list, after moving the files that come
    /// before it to the result; `None` when nothing is left. A walk that a
    /// failed listing ended asks for nothing more.
    pub fn next_step(&mut self) -> (r: Option<String>)
        ensures
            final(self).failure() == old(self).failure(),
            old(self).failure() is Some ==> r is None && final(self).frontier() == old(self).frontier()
                && final(self).collected() == old(self).collected(),
            old(self).failure() is None ==> ({
                let f = old(self).frontier();
                let k = leading_files(f) as int;
                &&& final(self).collected() == old(self).collected() + paths_of(f.take(k))
                &&& k == f.len() ==> r is None && final(self).frontier().len() == 0
                &&& k < f.len() ==> (r matches Some(p) && p@ == f[k].0 && final(self).frontier()
                    == f.skip(k + 1))
            }),
    {
        if self.error.is_some() {
            return None;
        }
        let ghost f0 = self.frontier();
        let ghost c0 = self.collected();
        let mut k: usize = 0;
        let n0 = self.stack.len();
        proof {
            assert(f0.skip(0) =~= f0);
            assert(paths_of(f0.take(0)) =~= Seq::<Seq<char>>::empty());
            assert(c0 + paths_of(f0.take(0)) =~= c0);
            assert(f0.len() == self.stack@.len());
        }
        loop
            invariant
                f0 == old(self).frontier(),
                c0 == old(self).collected(),
                self.error is None,
                old(self).error is None,
                f0.len() <= usize::MAX,
                k <= f0.len(),
                leading_files(f0) == k + leading_files(f0.skip(k as int)),
                self.frontier() == f0.skip(k as int),
                self.collected() == c0 + paths_of(f0.take(k as int)),
            decreases f0.len() - k,
        {
            proof {
                assert(self.stack@.reverse().len() == self.stack@.len());
            }
            match self.stack.pop() {
                None => {
                    proof {
                        assert(f0.skip(k as int).len() == 0);
                        assert(k == f0.len());
                    }
                    return None;
                },
                Some(e) => {
                    let ghost rest = f0.skip(k as int);
                    proof {
                        assert(self.stack@.reverse().map_values(|e: PendingEntry| entry_view(e)) =~= rest.drop_first());
                        assert(rest[0] == entry_view(e));
                        assert(rest.drop_first() =~= f0.skip(k + 1));
                        assert(f0[k as int] == rest[0]);
                    }
                    if e.is_dir {
                        assert(leading_files(rest) == 0);
                        return Some(e.path);
                    }
                    let ghost old_files = self.files@;
                    self.files.push(e.path);
                    proof {
                        assert(leading_files(rest) == 1 + leading_files(rest.drop_first()));
                        assert(f0.take(k + 1) =~= f0.take(k as int).push(f0[k as int]));
                        assert(string_views(self.files@) =~= string_views(old_files).push(f0[k as int].0));
                        assert(paths_of(f0.take(k + 1)) =~= paths_of(f0.take(k as int)).push(f0[k as int].0));
                    }
                    k = k + 1;
                },
            }
        }
    }

    /// Takes the listing `items` of the directory `parent`: its entries are
    /// handled next, in listing order, before the other pending entries.
    pub fn deliver(&mut self, parent: &str, items: &Vec<RemoteItem>)
        ensures
            final(self).frontier() == children_of(parent@, items@) + old(self).frontier(),
            final(self).collected() == old(self).collected(),
            final(self).failure() == old(self).failure(),
    {
        let ghost f0 = self.frontier();
        let ghost s0 = self.stack@;
        let mut j: usize = items.len();
        assert(children_of(parent@, items@).skip(items@.len() as int) =~= Seq::<(Seq<char>, bool)>::empty());
        assert(Seq::<(Seq<char>, bool)>::empty() + f0 =~= f0);
        while j > 0
            invariant
                f0 == old(self).frontier(),
                j <= items@.len(),
                self.files@ == old(self).files@,
                self.error == old(self).error,
                self.frontier() == children_of(parent@, items@).skip(j as int) + f0,
            decreases j,
        {
            let it = &items[j - 1];
            let path = child_path(parent, it.name.as_str());
            let ghost before = self.stack@;
            self.stack.push(PendingEntry { path, is_dir: it.is_dir });
            proof {
                let ch = children_of(parent@, items@);
                let e = self.stack@.last();
                assert(entry_view(e) == ch[j - 1]);
                assert(self.stack@.reverse() =~= seq![e] + before.reverse());
                assert(self.stack@.reverse().map_values(|e: PendingEntry| entry_view(e)) =~= seq![
                    entry_view(e)] + before.reverse().map_values(|e: PendingEntry| entry_view(e)));
                assert(ch.skip(j - 1) =~= seq![ch[j - 1]] + ch.skip(j as int));
            }
            j = j - 1;
        }
        assert(children_of(parent@, items@).skip(0) =~= children_of(parent@, items@));
    }

    /// Takes the result of listing the directory `parent`: a listing goes on
    /// as [`RecursiveListing::deliver`]; a failed one ends the walk with its
    /// error (the first failure is the one kept), and nothing more is listed.
    pub fn deliver_listing(&mut self, parent: &str, listing: Result<Vec<RemoteItem>, WebDAVError>)
        ensures
            final(self).collected() == old(self).collected(),
            match listing {
                Ok(items) => final(self).frontier() == children_of(parent@, items@) + old(self).frontier()
                    && final(self).failure() == old(self).failure(),
                Err(e) => final(self).frontier().len() == 0 && final(self).failure() == match old(self).failure() {
                    Some(first) => Some(first),
                    None => Some(e),
                },
            },
    {
        match listing {
            Ok(items) => self.deliver(parent, &items),
            Err(e) => {
                self.stack = Vec::new();
                if self.error.is_none() {
                    self.error = Some(e);
                }
                proof {
                    assert(self.frontier() =~= Seq::<(Seq<char>, bool)>::empty());
                }
            },
        }
    }

    /// The outcome of the walk: the failed listing's error, or the files
    /// found, in order.
    pub fn outcome(self) -> (r: Result<Vec<String>, WebDAVError>)
        ensures
            match self.failure() {
                Some(e) => r matches Err(x) && x == e,
                None => r matches Ok(v) && string_views(v@) == self.collected(),
            },
    {
        match self.error {
            Some(e) => Err(e),
            None => Ok(self.files),
        }
    }
}

impl WebDAVClient {
    /// Starts listing `remote_path` recursively: the result is every file
    /// below it, depth first, each as the path of its directory followed by
    /// its name. The caller lists each directory the walk hands out.
    pub fn list_directory_recursive(&self, remote_path: &str) -> (r: RecursiveListing)
        ensures
            r.frontier() == seq![(remote_path@, true)],
            r.collected().len() == 0,
            r.failure() is None,
    {
        let mut stack: Vec<PendingEntry> = Vec::new();
        stack.push(PendingEntry { path: String::from_str(remote_path), is_dir: true });
        let r = RecursiveListing { stack, files: Vec::new(), error: None };
        assert(r.frontier() =~= seq![(remote_path@, true)]);
        assert(r.collected() =~= Seq::<Seq<char>>::empty());
        r
    }
}

/// The files a depth-first walk of the pending entries `f` finds when
/// directory `p` lists as `listing(p)`, allowing `fuel` directory listings;
/// `None` when that is not enough.
pub open spec fn walk_files(
    listing: spec_fn(Seq<char>) -> Seq<RemoteItem>,
    f: Seq<(Seq<char>, bool)>,
    fuel: nat,
) -> Option<Seq<Seq<char>>>
    decreases fuel, f.len(),
{
    if f.len() == 0 {
        Some(seq![])
    } else if !f[0].1 {
        match walk_files(listing, f.drop_first(), fuel) {
            Some(rest) => Some(seq![f[0].0] + rest),
            None => None,
        }
    } else if fuel == 0 {
        None
    } else {
        walk_files(listing, children_of(f[0].0, listing(f[0].0)) + f.drop_first(), (fuel - 1) as nat)
    }
}

/// One round of the walk keeps the final result: when the pending entries
/// `f` lead to the files `result`, handing out the next directory (after
/// the files before it, see [`RecursiveListing::next_step`]) and taking its
/// listing (see [`RecursiveListing::deliver`]) leaves pending entries that
/// lead to the rest of `result`; when no directory is left, the files handed
/// out are all of `result`. So the files collected, followed by what the
/// pending entries lead to, stay the same from the start to the end: the
/// walk returns exactly the depth-first listing of the tree.
pub proof fn law_walk_round(
    listing: spec_fn(Seq<char>) -> Seq<RemoteItem>,
    f: Seq<(Seq<char>, bool)>,
    fuel: nat,
    result: Seq<Seq<char>>,
)
    requires
        walk_files(listing, f, fuel) == Some(result),
    ensures
        ({
            let k = leading_files(f) as int;
            &&& k <= f.len()
            &&& k <= result.len()
            &&& result.take(k) == paths_of(f.take(k))
            &&& k == f.len() ==> result == paths_of(f)
            &&& k < f.len() ==> fuel >= 1 && walk_files(
                listing,
                children_of(f[k].0, listing(f[k].0)) + f.skip(k + 1),
                (fuel - 1) as nat,
            ) == Some(result.skip(k))
        }),
    decreases f.len(),
{
    if f.len() == 0 {
        assert(paths_of(f) =~= Seq::<Seq<char>>::empty());
        assert(result.take(0) =~= Seq::<Seq<char>>::empty());
        assert(paths_of(f.take(0)) =~= Seq::<Seq<char>>::empty());
    } else if !f[0].1 {
        let rest = walk_files(listing, f.drop_first(), fuel)->0;
        assert(result == seq![f[0].0] + rest);
        law_walk_round(listing, f.drop_first(), fuel, rest);
        let k = leading_files(f) as int;
        assert(k == 1 + leading_files(f.drop_first()));
        assert(result.take(k) =~= seq![f[0].0] + rest.take(k - 1));
        assert(f.drop_first().take(k - 1) =~= f.take(k).drop_first());
        assert(paths_of(f.take(k)) =~= seq![f[0].0] + paths_of(f.drop_first().take(k - 1)));
        if k == f.len() {
            assert(paths_of(f) =~= seq![f[0].0] + paths_of(f.drop_first()));
        } else {
            assert(f.drop_first().skip(k - 1 + 1) =~= f.skip(k + 1));
            assert(f.drop_first()[k - 1] == f[k]);
            assert(rest.skip(k - 1) =~= result.skip(k));
        }
    } else {
        assert(leading_files(f) == 0);
        assert(result.take(0) =~= Seq::<Seq<char>>::empty());
        assert(paths_of(f.take(0)) =~= Seq::<Seq<char>>::empty());
        assert(f.skip(1) =~= f.drop_first());
        assert(result.skip(0) =~= result);
    }
}

} // verus!
