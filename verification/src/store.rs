//! The file store: the repository's file tree as the library sees it.
//!
//! A store maps each relative path to the addressed file's content. Its
//! operations are existence-gated: creating an existing file or deleting
//! a missing one fails with the matching error and leaves the store
//! untouched, and a failed operation never has any effect. The store is
//! viewed as a map from path to content; the order in which files were
//! first written is kept for listing.

use vstd::prelude::*;

use crate::error::Error;
use crate::modify::{
    args_valid, modification_of, modified_content, modify_content, validate_modification,
    ModifyFileArgs, ModifyFileResult,
};

verus! {

/// Arguments of a file creation: fails if the path exists.
#[derive(Debug, Clone)]
pub struct CreateFileArgs {
    pub path: String,
    pub content: String,
}

/// Arguments of a write: creates or overwrites unconditionally.
#[derive(Debug, Clone)]
pub struct WriteFileArgs {
    pub path: String,
    pub content: String,
}

/// Arguments of a read.
#[derive(Debug, Clone)]
pub struct ReadFileArgs {
    pub path: String,
}

/// Arguments of a deletion.
#[derive(Debug, Clone)]
pub struct DeleteFileArgs {
    pub path: String,
}

/// Arguments of a move.
#[derive(Debug, Clone)]
pub struct MoveFileArgs {
    pub source_path: String,
    pub destination_path: String,
}

/// The map that a sequence of path/content entries denotes; a later entry
/// for a path overrides an earlier one.
pub open spec fn model_of(s: Seq<(Seq<char>, Seq<char>)>) -> Map<Seq<char>, Seq<char>>
    decreases s.len(),
{
    if s.len() == 0 {
        Map::empty()
    } else {
        model_of(s.drop_last()).insert(s.last().0, s.last().1)
    }
}

/// Whether no two entries share a path.
pub open spec fn keys_unique(s: Seq<(Seq<char>, Seq<char>)>) -> bool {
    forall|a: int, b: int| 0 <= a < b < s.len() ==> s[a].0 != s[b].0
}

proof fn lemma_model_contains(s: Seq<(Seq<char>, Seq<char>)>, k: Seq<char>)
    ensures
        model_of(s).contains_key(k) <==> exists|i: int| 0 <= i < s.len() && s[i].0 == k,
    decreases s.len(),
{
    if s.len() == 0 {
    } else {
        lemma_model_contains(s.drop_last(), k);
        if s.last().0 == k {
            assert(s[s.len() - 1].0 == k);
        } else {
            if model_of(s).contains_key(k) {
                let i = choose|i: int| 0 <= i < s.drop_last().len() && s.drop_last()[i].0 == k;
                assert(s[i].0 == k);
            }
            if exists|i: int| 0 <= i < s.len() && s[i].0 == k {
                let i = choose|i: int| 0 <= i < s.len() && s[i].0 == k;
                assert(i < s.len() - 1);
                assert(s.drop_last()[i].0 == k);
            }
        }
    }
}

proof fn lemma_model_get(s: Seq<(Seq<char>, Seq<char>)>, i: int)
    requires
        keys_unique(s),
        0 <= i < s.len(),
    ensures
        model_of(s).contains_key(s[i].0),
        model_of(s)[s[i].0] == s[i].1,
    decreases s.len(),
{
    if i == s.len() - 1 {
    } else {
        assert(keys_unique(s.drop_last()));
        assert(s.drop_last()[i] == s[i]);
        lemma_model_get(s.drop_last(), i);
        assert(s.last().0 != s[i].0);
    }
}

proof fn lemma_model_update(s: Seq<(Seq<char>, Seq<char>)>, i: int, v: Seq<char>)
    requires
        keys_unique(s),
        0 <= i < s.len(),
    ensures
        model_of(s.update(i, (s[i].0, v))) == model_of(s).insert(s[i].0, v),
        keys_unique(s.update(i, (s[i].0, v))),
    decreases s.len(),
{
    let t = s.update(i, (s[i].0, v));
    assert(keys_unique(t));
    if i == s.len() - 1 {
        assert(t.drop_last() =~= s.drop_last());
        assert(t.last() == (s[i].0, v));
        assert(model_of(s.drop_last()).insert(s[i].0, s[i].1).insert(s[i].0, v)
            =~= model_of(s.drop_last()).insert(s[i].0, v));
    } else {
        assert(keys_unique(s.drop_last()));
        assert(s.drop_last()[i] == s[i]);
        lemma_model_update(s.drop_last(), i, v);
        assert(t.drop_last() =~= s.drop_last().update(i, (s[i].0, v)));
        assert(t.last() == s.last());
        assert(s.last().0 != s[i].0);
        assert(model_of(s.drop_last()).insert(s[i].0, v).insert(s.last().0, s.last().1)
            =~= model_of(s.drop_last()).insert(s.last().0, s.last().1).insert(s[i].0, v));
    }
}

proof fn lemma_model_remove(s: Seq<(Seq<char>, Seq<char>)>, i: int)
    requires
        keys_unique(s),
        0 <= i < s.len(),
    ensures
        model_of(s.remove(i)) == model_of(s).remove(s[i].0),
        keys_unique(s.remove(i)),
    decreases s.len(),
{
    assert forall|a: int, b: int| 0 <= a < b < s.remove(i).len() implies s.remove(i)[a].0 != s.remove(
        i,
    )[b].0 by {
        if b < i {
            assert(s.remove(i)[a] == s[a] && s.remove(i)[b] == s[b]);
        } else if a < i {
            assert(s.remove(i)[a] == s[a] && s.remove(i)[b] == s[b + 1]);
        } else {
            assert(s.remove(i)[a] == s[a + 1] && s.remove(i)[b] == s[b + 1]);
        }
    }
    if i == s.len() - 1 {
        assert(s.remove(i) =~= s.drop_last());
        lemma_model_contains(s.drop_last(), s[i].0);
        assert(forall|j: int| 0 <= j < s.drop_last().len() ==> s.drop_last()[j] == s[j]);
        assert(!model_of(s.drop_last()).contains_key(s[i].0));
        assert(model_of(s.drop_last()).insert(s[i].0, s[i].1).remove(s[i].0)
            =~= model_of(s.drop_last()));
    } else {
        assert(keys_unique(s.drop_last()));
        assert(s.drop_last()[i] == s[i]);
        lemma_model_remove(s.drop_last(), i);
        assert(s.remove(i).drop_last() =~= s.drop_last().remove(i));
        assert(s.remove(i).last() == s.last());
        assert(s.last().0 != s[i].0);
        assert(model_of(s.drop_last()).remove(s[i].0).insert(s.last().0, s.last().1)
            =~= model_of(s.drop_last()).insert(s.last().0, s.last().1).remove(s[i].0));
    }
}

proof fn lemma_model_push(pre: Seq<(Seq<char>, Seq<char>)>, post: Seq<(Seq<char>, Seq<char>)>, k: Seq<char>, v: Seq<char>)
    requires
        keys_unique(pre),
        post == pre.push((k, v)),
        forall|i: int| 0 <= i < pre.len() ==> #[trigger] pre[i].0 != k,
    ensures
        keys_unique(post),
        model_of(post) == model_of(pre).insert(k, v),
{
    assert(post.drop_last() =~= pre);
    assert(post.last() == (k, v));
    assert forall|a: int, b: int| 0 <= a < b < post.len() implies post[a].0 != post[b].0 by {
        if b == post.len() - 1 {
            assert(post[a] == pre[a]);
        } else {
            assert(post[a] == pre[a] && post[b] == pre[b]);
        }
    }
}

/// The file store: an explicit context value, constructed once at
/// startup and passed into every operation; no ambient global.
pub struct Functions {
    files: Vec<(String, String)>,
}

impl View for Functions {
    type V = Map<Seq<char>, Seq<char>>;

    /// The store as a map from path to content.
    closed spec fn view(&self) -> Map<Seq<char>, Seq<char>> {
        model_of(self.files.deep_view())
    }
}

impl Functions {
    /// The store's entries, in listing order.
    pub closed spec fn entries(&self) -> Seq<(Seq<char>, Seq<char>)> {
        self.files.deep_view()
    }

    /// The store's paths, in listing order.
    pub closed spec fn paths(&self) -> Seq<Seq<char>> {
        Seq::new(self.files.deep_view().len(), |i: int| self.files.deep_view()[i].0)
    }

    /// No two entries share a path.
    pub closed spec fn wf(&self) -> bool {
        keys_unique(self.files.deep_view())
    }

    /// An empty store.
    pub fn new() -> (r: Functions)
        ensures
            r.wf(),
            r@ == Map::<Seq<char>, Seq<char>>::empty(),
            r.paths() == Seq::<Seq<char>>::empty(),
    {
        let r = Functions { files: Vec::new() };
        proof {
            assert(r.files.deep_view() =~= Seq::<(Seq<char>, Seq<char>)>::empty());
            assert(r.paths() =~= Seq::<Seq<char>>::empty());
        }
        r
    }

    /// The index of the entry for `path`, if the store holds one.
    fn find(&self, path: &String) -> (r: Option<usize>)
        ensures
            match r {
                Some(i) => i < self.entries().len() && self.entries()[i as int].0 == path@,
                None => forall|i: int| 0 <= i < self.entries().len() ==> self.entries()[i].0
                    != path@,
            },
    {
        let mut i: usize = 0;
        while i < self.files.len()
            invariant
                i <= self.files.len(),
                self.entries().len() == self.files.len(),
                forall|j: int| 0 <= j < i ==> self.entries()[j].0 != path@,
            decreases self.files.len() - i,
        {
            if self.files[i].0 == *path {
                return Some(i);
            }
            i += 1;
        }
        None
    }

    /// Creates a new file holding `content`. Fails with `AlreadyExists`,
    /// leaving the store untouched, if the path already holds a file.
    pub fn create_file(&mut self, args: CreateFileArgs) -> (r: Result<(), Error>)
        requires
            old(self).wf(),
        ensures
            final(self).wf(),
            match r {
                Ok(()) => {
                    &&& !old(self)@.contains_key(args.path@)
                    &&& final(self)@ == old(self)@.insert(args.path@, args.content@)
                    &&& final(self).paths() == old(self).paths().push(args.path@)
                },
                Err(e) => {
                    &&& e == Error::AlreadyExists
                    &&& old(self)@.contains_key(args.path@)
                    &&& *final(self) == *old(self)
                },
            },
    {
        proof {
            lemma_model_contains(self.entries(), args.path@);
        }
        match self.find(&args.path) {
            Some(_) => Err(Error::AlreadyExists),
            None => {
                let ghost pre = self.files.deep_view();
                proof {
                    assert(forall|i: int| 0 <= i < pre.len() ==> #[trigger] pre[i].0
                        != args.path@);
                }
                let ghost k = args.path@;
                let ghost v = args.content@;
                self.files.push((args.path, args.content));
                proof {
                    assert(self.files.deep_view() =~= pre.push((k, v)));
                    lemma_model_push(pre, self.files.deep_view(), k, v);
                    assert(final(self).paths() =~= old(self).paths().push(k));
                }
                Ok(())
            },
        }
    }

    /// Creates or overwrites the file at `path` and hands back the prior
    /// content, or `None` where there was none.
    pub fn write_file(&mut self, args: WriteFileArgs) -> (r: Result<Option<String>, Error>)
        requires
            old(self).wf(),
        ensures
            final(self).wf(),
            final(self)@ == old(self)@.insert(args.path@, args.content@),
            match r {
                Ok(prior) => match prior {
                    Some(p) => {
                        &&& old(self)@.contains_key(args.path@)
                        &&& p@ == old(self)@[args.path@]
                        &&& final(self).paths() == old(self).paths()
                    },
                    None => {
                        &&& !old(self)@.contains_key(args.path@)
                        &&& final(self).paths() == old(self).paths().push(args.path@)
                    },
                },
                Err(_) => false,
            },
    {
        proof {
            lemma_model_contains(self.entries(), args.path@);
        }
        match self.find(&args.path) {
            Some(i) => {
                let ghost pre = self.files.deep_view();
                proof {
                    lemma_model_get(pre, i as int);
                    lemma_model_update(pre, i as int, args.content@);
                }
                let prior = self.files.remove(i);
                self.files.insert(i, (args.path, args.content));
                proof {
                    assert(self.files.deep_view() =~= pre.update(
                        i as int,
                        (pre[i as int].0, args.content@),
                    ));
                    assert(final(self).paths() =~= old(self).paths());
                }
                Ok(Some(prior.1))
            },
            None => {
                let ghost pre = self.files.deep_view();
                proof {
                    assert(forall|i: int| 0 <= i < pre.len() ==> #[trigger] pre[i].0
                        != args.path@);
                }
                let ghost k = args.path@;
                let ghost v = args.content@;
                self.files.push((args.path, args.content));
                proof {
                    assert(self.files.deep_view() =~= pre.push((k, v)));
                    lemma_model_push(pre, self.files.deep_view(), k, v);
                    assert(final(self).paths() =~= old(self).paths().push(k));
                }
                Ok(None)
            },
        }
    }

    /// Reads the file at `path`, or `None` where it does not exist.
    pub fn read_file(&self, args: ReadFileArgs) -> (r: Option<String>)
        requires
            self.wf(),
        ensures
            match r {
                Some(content) => self@.contains_key(args.path@) && content@ == self@[args.path@],
                None => !self@.contains_key(args.path@),
            },
    {
        proof {
            lemma_model_contains(self.entries(), args.path@);
        }
        match self.find(&args.path) {
            Some(i) => {
                proof {
                    lemma_model_get(self.entries(), i as int);
                }
                Some(self.files[i].1.clone())
            },
            None => None,
        }
    }

    /// Deletes the file at `path`. Fails with `NotFound`, leaving the
    /// store untouched, if the path holds no file.
    pub fn delete_file(&mut self, args: DeleteFileArgs) -> (r: Result<(), Error>)
        requires
            old(self).wf(),
        ensures
            final(self).wf(),
            match r {
                Ok(()) => {
                    &&& old(self)@.contains_key(args.path@)
                    &&& final(self)@ == old(self)@.remove(args.path@)
                },
                Err(e) => {
                    &&& e == Error::NotFound
                    &&& !old(self)@.contains_key(args.path@)
                    &&& *final(self) == *old(self)
                },
            },
    {
        proof {
            lemma_model_contains(self.entries(), args.path@);
        }
        match self.find(&args.path) {
            Some(i) => {
                let ghost pre = self.files.deep_view();
                proof {
                    lemma_model_remove(pre, i as int);
                }
                self.files.remove(i);
                proof {
                    assert(self.files.deep_view() =~= pre.remove(i as int));
                }
                Ok(())
            },
            None => Err(Error::NotFound),
        }
    }

    /// Moves the file at `source_path` to `destination_path`. Fails with
    /// `NotFound` if the source is missing and with `AlreadyExists` if the
    /// destination is present; a failed move leaves the store untouched.
    pub fn move_file(&mut self, args: MoveFileArgs) -> (r: Result<(), Error>)
        requires
            old(self).wf(),
        ensures
            final(self).wf(),
            match r {
                Ok(()) => {
                    &&& old(self)@.contains_key(args.source_path@)
                    &&& !old(self)@.contains_key(args.destination_path@)
                    &&& final(self)@ == old(self)@.remove(args.source_path@).insert(
                        args.destination_path@,
                        old(self)@[args.source_path@],
                    )
                },
                Err(e) => {
                    &&& *final(self) == *old(self)
                    &&& (e == Error::NotFound || e == Error::AlreadyExists)
                    &&& (e == Error::NotFound <==> !old(self)@.contains_key(args.source_path@))
                    &&& (e == Error::AlreadyExists <==> old(self)@.contains_key(args.source_path@)
                        && old(self)@.contains_key(args.destination_path@))
                },
            },
    {
        proof {
            lemma_model_contains(self.entries(), args.source_path@);
            lemma_model_contains(self.entries(), args.destination_path@);
        }
        let src = match self.find(&args.source_path) {
            Some(i) => i,
            None => {
                return Err(Error::NotFound);
            },
        };
        match self.find(&args.destination_path) {
            Some(_) => Err(Error::AlreadyExists),
            None => {
                let ghost pre = self.files.deep_view();
                proof {
                    lemma_model_get(pre, src as int);
                    lemma_model_remove(pre, src as int);
                    lemma_model_contains(pre.remove(src as int), args.destination_path@);
                }
                let entry = self.files.remove(src);
                let ghost mid = self.files.deep_view();
                let ghost k = args.destination_path@;
                let ghost v = entry.1@;
                proof {
                    assert(mid =~= pre.remove(src as int));
                    assert(v == pre[src as int].1);
                    assert forall|i: int| 0 <= i < mid.len() implies #[trigger] mid[i].0 != k by {
                        if i < src {
                            assert(mid[i] == pre[i]);
                        } else {
                            assert(mid[i] == pre[i + 1]);
                        }
                    }
                }
                self.files.push((args.destination_path, entry.1));
                proof {
                    assert(self.files.deep_view() =~= mid.push((k, v)));
                    lemma_model_push(mid, self.files.deep_view(), k, v);
                }
                Ok(())
            },
        }
    }

    /// Applies an edit to the file at `path` and reports its full
    /// before/after content. Fails with `NotFound` if the file is missing
    /// and with `MissingParameter` if a replacement lacks its end line;
    /// a failed modification leaves the store untouched, and a successful
    /// one rewrites the file's content whole.
    pub fn modify_file(&mut self, args: ModifyFileArgs) -> (r: Result<ModifyFileResult, Error>)
        requires
            old(self).wf(),
        ensures
            final(self).wf(),
            match r {
                Ok(res) => {
                    &&& old(self)@.contains_key(args.path@)
                    &&& args_valid(args)
                    &&& res.old_contents@ == old(self)@[args.path@]
                    &&& res.new_contents@ == modified_content(
                        old(self)@[args.path@],
                        modification_of(args),
                    )
                    &&& final(self)@ == old(self)@.insert(args.path@, res.new_contents@)
                    &&& final(self).paths() == old(self).paths()
                },
                Err(e) => {
                    &&& *final(self) == *old(self)
                    &&& (e == Error::NotFound || e == Error::MissingParameter)
                    &&& (e == Error::NotFound <==> !old(self)@.contains_key(args.path@))
                    &&& (e == Error::MissingParameter <==> old(self)@.contains_key(args.path@)
                        && !args_valid(args))
                },
            },
    {
        proof {
            lemma_model_contains(self.entries(), args.path@);
        }
        let i = match self.find(&args.path) {
            Some(i) => i,
            None => {
                return Err(Error::NotFound);
            },
        };
        let m = match validate_modification(&args) {
            Ok(m) => m,
            Err(e) => {
                return Err(e);
            },
        };
        let ghost pre = self.files.deep_view();
        proof {
            lemma_model_get(pre, i as int);
        }
        let res = modify_content(self.files[i].1.as_str(), &m);
        proof {
            lemma_model_update(pre, i as int, res.new_contents@);
        }
        let entry = self.files.remove(i);
        self.files.insert(i, (entry.0, res.new_contents.clone()));
        proof {
            assert(self.files.deep_view() =~= pre.update(
                i as int,
                (pre[i as int].0, res.new_contents@),
            ));
            assert(final(self).paths() =~= old(self).paths());
        }
        Ok(res)
    }

    /// Lists every path the store holds, in listing order.
    pub fn get_all_files(&self) -> (r: Vec<String>)
        ensures
            r.deep_view() == self.paths(),
    {
        let mut r: Vec<String> = Vec::new();
        let mut i: usize = 0;
        while i < self.files.len()
            invariant
                i <= self.files.len(),
                self.entries().len() == self.files.len(),
                r.deep_view() == self.paths().subrange(0, i as int),
            decreases self.files.len() - i,
        {
            let ghost prev = r.deep_view();
            r.push(self.files[i].0.clone());
            proof {
                assert(r.deep_view() =~= prev.push(self.entries()[i as int].0));
                assert(r.deep_view() =~= self.paths().subrange(0, i + 1));
            }
            i += 1;
        }
        proof {
            assert(self.paths().subrange(0, self.paths().len() as int) =~= self.paths());
        }
        r
    }

    /// Lists every path the store holds, in listing order.
    pub fn list_files(&self) -> (r: Vec<String>)
        ensures
            r.deep_view() == self.paths(),
    {
        self.get_all_files()
    }
}

/// A listing is exact: the listed paths are precisely the files the
/// store holds, and no path is listed twice.
pub proof fn lemma_paths_exact(f: &Functions)
    requires
        f.wf(),
    ensures
        forall|p: Seq<char>| f@.contains_key(p) <==> f.paths().contains(p),
        forall|a: int, b: int| 0 <= a < b < f.paths().len() ==> f.paths()[a] != f.paths()[b],
{
    assert forall|p: Seq<char>| f@.contains_key(p) <==> f.paths().contains(p) by {
        lemma_model_contains(f.entries(), p);
        if exists|i: int| 0 <= i < f.entries().len() && f.entries()[i].0 == p {
            let i = choose|i: int| 0 <= i < f.entries().len() && f.entries()[i].0 == p;
            assert(f.paths()[i] == p);
        }
        if f.paths().contains(p) {
            let i = choose|i: int| 0 <= i < f.paths().len() && f.paths()[i] == p;
            assert(f.entries()[i].0 == p);
        }
    }
}

/// A successful modification reports the file's new content exactly as a
/// following read returns it: reading the modified path in the store the
/// modification leaves behind yields precisely the reported new content.
pub proof fn lemma_modify_then_read(
    pre: Map<Seq<char>, Seq<char>>,
    post: Map<Seq<char>, Seq<char>>,
    path: Seq<char>,
    new_contents: Seq<char>,
)
    requires
        post == pre.insert(path, new_contents),
    ensures
        post.contains_key(path),
        post[path] == new_contents,
{
}

} // verus!
