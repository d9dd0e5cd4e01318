//! Where the paths to work on come from: the paths given, or a walk
//! through the directory trees below them.

use crate::text::{compare_bytes, lemma_lex_irreflexive, lemma_lex_transitive, lex_lt, ByteOrder};
use vstd::prelude::*;

verus! {

/// A source of paths shared by the workers.
pub trait Reader<P, E> {
    /// The next path, or `None` when there are no more.
    fn read_message(&self) -> (r: Result<Option<P>, E>);

    /// Stops handing out paths.
    fn kill(&self);
}

/// How the paths are to be produced.
pub enum ReaderPlan<P> {
    /// Walk the trees below `roots`, reporting every regular file.
    Walk { follow_symlinks: bool, roots: Vec<P> },
    /// Hand out the given paths, each once.
    List(Vec<P>),
}

/// The plan for the paths given: a walk when recursion is asked for
/// (below the current directory when no path is given), the paths
/// themselves otherwise.
pub fn create<P>(recursive: bool, follow_symlinks: bool, paths: Vec<P>, current_dir: P) -> (r: ReaderPlan<P>)
    ensures
        recursive && paths@.len() > 0 ==> r == (ReaderPlan::Walk { follow_symlinks, roots: paths }),
        recursive && paths@.len() == 0 ==> r is Walk && r->follow_symlinks == follow_symlinks
            && r->roots@ == seq![current_dir],
        !recursive ==> r == ReaderPlan::List(paths),
{
    if recursive {
        let roots = if paths.len() > 0 {
            paths
        } else {
            let mut here: Vec<P> = Vec::new();
            here.push(current_dir);
            here
        };
        return ReaderPlan::Walk { follow_symlinks, roots };
    }
    ReaderPlan::List(paths)
}

/// Claiming the next path of a list of `len` paths whose shared cursor
/// reads `current`: while paths remain, the index to take and the value
/// the cursor moves to; `None` once every path is claimed.
pub fn next_claim(current: usize, len: usize) -> (r: Option<(usize, usize)>)
    ensures
        current < len ==> r == Some((current, (current + 1) as usize)),
        current >= len ==> r is None,
{
    if current >= len {
        None
    } else {
        Some((current, current + 1))
    }
}

/// What a walk does with one directory entry.
#[derive(PartialEq, Eq, Structural, Debug)]
pub enum EntryAction {
    /// A symbolic link, and links are not followed.
    Skip,
    /// A directory: walk it too.
    Descend,
    /// A regular file: report it.
    Report,
    /// Anything else.
    Ignore,
}

/// The action for an entry: links are skipped unless followed; then
/// directories are walked and regular files reported.
pub open spec fn entry_action_spec(follow_symlinks: bool, is_symlink: bool, is_dir: bool, is_file: bool) -> EntryAction {
    if !follow_symlinks && is_symlink {
        EntryAction::Skip
    } else if is_dir {
        EntryAction::Descend
    } else if is_file {
        EntryAction::Report
    } else {
        EntryAction::Ignore
    }
}

/// Following symbolic links changes only what happens to symbolic links:
/// only a link that is not followed is skipped; any other entry is
/// walked into when it is a directory, reported when it is a regular
/// file and ignored otherwise, whether or not links are followed.
pub proof fn lemma_following_links_affects_only_links(is_symlink: bool, is_dir: bool, is_file: bool)
    ensures
        !is_symlink ==> entry_action_spec(true, is_symlink, is_dir, is_file)
            == entry_action_spec(false, is_symlink, is_dir, is_file),
        (entry_action_spec(false, is_symlink, is_dir, is_file) is Skip) == is_symlink,
        !(entry_action_spec(true, is_symlink, is_dir, is_file) is Skip),
        forall|follow: bool| !(entry_action_spec(follow, is_symlink, is_dir, is_file) is Skip) ==> {
            &&& is_dir ==> entry_action_spec(follow, is_symlink, is_dir, is_file) is Descend
            &&& !is_dir && is_file ==> entry_action_spec(follow, is_symlink, is_dir, is_file) is Report
            &&& !is_dir && !is_file ==> entry_action_spec(follow, is_symlink, is_dir, is_file) is Ignore
        },
{
}

/// The directories a walk has entered so far, known by their canonical
/// paths, kept in lexicographic order so that each lookup is a binary
/// search.
pub struct Visitor {
    seen: Vec<Vec<u8>>,
    follow_symlinks: bool,
}

/// The canonical paths in `seen`.
pub open spec fn seen_set(seen: Seq<Vec<u8>>) -> Set<Seq<u8>> {
    Set::new(|p: Seq<u8>| exists|i: int| 0 <= i < seen.len() && (#[trigger] seen[i])@ == p)
}

/// Strictly increasing: sorted, and no canonical path twice.
pub open spec fn strictly_sorted(seen: Seq<Vec<u8>>) -> bool {
    forall|a: int, b: int| 0 <= a < b < seen.len() ==> lex_lt((#[trigger] seen[a])@, (#[trigger] seen[b])@)
}

impl Visitor {
    #[verifier::type_invariant]
    closed spec fn wf(&self) -> bool {
        strictly_sorted(self.seen@)
    }

    /// The directories entered so far.
    pub closed spec fn seen(&self) -> Set<Seq<u8>> {
        seen_set(self.seen@)
    }

    pub closed spec fn follows_symlinks(&self) -> bool {
        self.follow_symlinks
    }

    pub fn new(follow_symlinks: bool) -> (v: Self)
        ensures
            v.seen() == Set::<Seq<u8>>::empty(),
            v.follows_symlinks() == follow_symlinks,
    {
        let v = Visitor { seen: Vec::new(), follow_symlinks };
        assert(v.seen() =~= Set::<Seq<u8>>::empty());
        v
    }

    /// Records that the walk reaches the directory with canonical path
    /// `canonical`; answers whether it is the first time, so that every
    /// directory is walked once however many links lead to it.
    pub fn enter(&mut self, canonical: Vec<u8>) -> (fresh: bool)
        ensures
            fresh == !old(self).seen().contains(canonical@),
            final(self).seen() == old(self).seen().insert(canonical@),
            final(self).follows_symlinks() == old(self).follows_symlinks(),
    {
        proof {
            use_type_invariant(&*self);
        }
        let ghost key = canonical@;
        let n = self.seen.len();
        let mut lo: usize = 0;
        let mut hi: usize = n;
        while lo < hi
            invariant
                n == self.seen@.len(),
                key == canonical@,
                strictly_sorted(self.seen@),
                lo <= hi <= n,
                forall|j: int| 0 <= j < lo ==> lex_lt((#[trigger] self.seen@[j])@, key),
                forall|j: int| hi <= j < n ==> lex_lt(key, (#[trigger] self.seen@[j])@),
            decreases hi - lo,
        {
            let mid = lo + (hi - lo) / 2;
            match compare_bytes(self.seen[mid].as_slice(), canonical.as_slice()) {
                ByteOrder::Equal => {
                    assert(self.seen().contains(key)) by {
                        assert(self.seen@[mid as int]@ == key);
                    }
                    assert(self.seen().insert(key) =~= self.seen());
                    return false;
                },
                ByteOrder::Less => {
                    assert forall|j: int| 0 <= j < mid + 1 implies lex_lt((#[trigger] self.seen@[j])@, key) by {
                        if j < mid {
                            lemma_lex_transitive(self.seen@[j]@, self.seen@[mid as int]@, key);
                        }
                    }
                    lo = mid + 1;
                },
                ByteOrder::Greater => {
                    assert forall|j: int| mid <= j < n implies lex_lt(key, (#[trigger] self.seen@[j])@) by {
                        if j > mid {
                            lemma_lex_transitive(key, self.seen@[mid as int]@, self.seen@[j]@);
                        }
                    }
                    hi = mid;
                },
            }
        }
        assert(!self.seen().contains(key)) by {
            if self.seen().contains(key) {
                let j = choose|j: int| 0 <= j < n && (#[trigger] self.seen@[j])@ == key;
                lemma_lex_irreflexive(key);
            }
        }
        let ghost old_seen = self.seen@;
        let mut seen: Vec<Vec<u8>> = Vec::new();
        std::mem::swap(&mut seen, &mut self.seen);
        seen.insert(lo, canonical);
        assert(seen@ == old_seen.insert(lo as int, seen@[lo as int]));
        assert(seen_set(seen@) =~= seen_set(old_seen).insert(key)) by {
            assert forall|p: Seq<u8>| seen_set(seen@).contains(p) implies seen_set(old_seen).insert(key).contains(p) by {
                let i = choose|i: int| 0 <= i < seen@.len() && (#[trigger] seen@[i])@ == p;
                if i < lo {
                    assert(old_seen[i] == seen@[i]);
                } else if i > lo {
                    assert(old_seen[i - 1] == seen@[i]);
                }
            }
            assert forall|p: Seq<u8>| seen_set(old_seen).insert(key).contains(p) implies seen_set(seen@).contains(p) by {
                if p == key {
                    assert(seen@[lo as int]@ == p);
                } else {
                    let i = choose|i: int| 0 <= i < old_seen.len() && (#[trigger] old_seen[i])@ == p;
                    if i < lo {
                        assert(seen@[i] == old_seen[i]);
                    } else {
                        assert(seen@[i + 1] == old_seen[i]);
                    }
                }
            }
        }
        assert forall|a: int, b: int| 0 <= a < b < seen@.len() implies lex_lt((#[trigger] seen@[a])@, (#[trigger] seen@[b])@) by {
            if b < lo {
                assert(seen@[a] == old_seen[a] && seen@[b] == old_seen[b]);
            } else if b == lo {
                assert(seen@[a] == old_seen[a]);
            } else if a < lo {
                assert(seen@[a] == old_seen[a] && seen@[b] == old_seen[b - 1]);
                lemma_lex_transitive(old_seen[a]@, key, old_seen[b - 1]@);
            } else if a == lo {
                assert(seen@[b] == old_seen[b - 1]);
            } else {
                assert(seen@[a] == old_seen[a - 1] && seen@[b] == old_seen[b - 1]);
            }
        }
        self.seen = seen;
        true
    }

    /// What to do with a directory entry of the given kind.
    pub fn entry_action(&self, is_symlink: bool, is_dir: bool, is_file: bool) -> (a: EntryAction)
        ensures
            a == entry_action_spec(self.follows_symlinks(), is_symlink, is_dir, is_file),
            a is Skip <==> !self.follows_symlinks() && is_symlink,
            !(a is Skip) && is_dir ==> a is Descend,
            !(a is Skip) && !is_dir && is_file ==> a is Report,
            !(a is Skip) && !is_dir && !is_file ==> a is Ignore,
    {
        if !self.follow_symlinks && is_symlink {
            EntryAction::Skip
        } else if is_dir {
            EntryAction::Descend
        } else if is_file {
            EntryAction::Report
        } else {
            EntryAction::Ignore
        }
    }
}

/// The directories entered after entering each of `keys` in turn,
/// starting from `seen`.
pub open spec fn seen_after(seen: Set<Seq<u8>>, keys: Seq<Seq<u8>>) -> Set<Seq<u8>>
    decreases keys.len(),
{
    if keys.len() == 0 {
        seen
    } else {
        seen_after(seen, keys.drop_last()).insert(keys.last())
    }
}

/// Whether the `i`-th entry of `keys` was the first visit of its
/// directory.
pub open spec fn fresh_at(seen: Set<Seq<u8>>, keys: Seq<Seq<u8>>, i: int) -> bool {
    !seen_after(seen, keys.take(i)).contains(keys[i])
}

proof fn lemma_seen_after_grows(seen: Set<Seq<u8>>, keys: Seq<Seq<u8>>, i: int, j: int)
    requires
        0 <= i < j <= keys.len(),
    ensures
        seen_after(seen, keys.take(j)).contains(keys[i]),
    decreases j,
{
    let prefix = keys.take(j);
    assert(prefix.drop_last() =~= keys.take(j - 1));
    if i == j - 1 {
        assert(prefix.last() == keys[i]);
    } else {
        lemma_seen_after_grows(seen, keys, i, j - 1);
    }
}

/// A walk enters each directory at most once: of all the times the same
/// canonical path is reached, at most one is answered as fresh.
pub proof fn lemma_each_directory_entered_once(seen: Set<Seq<u8>>, keys: Seq<Seq<u8>>, i: int, j: int)
    requires
        0 <= i < j < keys.len(),
        keys[i] == keys[j],
    ensures
        !(fresh_at(seen, keys, i) && fresh_at(seen, keys, j)),
{
    lemma_seen_after_grows(seen, keys, i, j);
}

} // verus!
