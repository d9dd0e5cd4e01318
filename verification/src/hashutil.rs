//! What each job decides for one file: which lines to print, which
//! digests to compute or store, and whether the file passed. The caller
//! performs the file-system calls and hands their outcomes in.

use crate::hex::{hex_of, hex_string};
use crate::text::{bytes_equal, pad_left, push_padded};
use vstd::prelude::*;

verus! {

/// The `errno` value with which the operating system reports that a
/// file has no extended attribute of the name asked for.
pub const ERRNO_ENODATA: i32 = 61;

/// Whether an error's raw OS code says that the attribute is absent.
pub fn is_data_not_found_error(raw_os_error: Option<i32>) -> (r: bool)
    ensures
        r == (raw_os_error == Some(ERRNO_ENODATA)),
{
    match raw_os_error {
        Some(code) => code == ERRNO_ENODATA,
        None => false,
    }
}

/// What reading one stored digest found.
pub enum AttrLookup<E> {
    /// The attribute holds these bytes.
    Found(Vec<u8>),
    /// The file has no such attribute.
    Missing,
    /// Reading failed for another reason.
    Failed(E),
}

impl<E> AttrLookup<E> {
    /// Sorts the outcome of an attribute read: an error whose raw OS
    /// code is [`ERRNO_ENODATA`] means the attribute is missing.
    pub fn classify(read: Result<Vec<u8>, E>, raw_os_error: Option<i32>) -> (r: Self)
        ensures
            read matches Ok(v) ==> r == AttrLookup::<E>::Found(v),
            read matches Err(e) ==> r == (if raw_os_error == Some(ERRNO_ENODATA) {
                AttrLookup::<E>::Missing
            } else {
                AttrLookup::<E>::Failed(e)
            }),
    {
        match read {
            Ok(v) => AttrLookup::Found(v),
            Err(e) => {
                if is_data_not_found_error(raw_os_error) {
                    AttrLookup::Missing
                } else {
                    AttrLookup::Failed(e)
                }
            },
        }
    }
}

/// What removing one stored digest did.
pub enum Removal<E> {
    Removed,
    /// There was nothing to remove.
    Missing,
    Failed(E),
}

impl<E> Removal<E> {
    /// Sorts the outcome of an attribute removal, as
    /// [`AttrLookup::classify`] does for reads.
    pub fn classify(removal: Result<(), E>, raw_os_error: Option<i32>) -> (r: Self)
        ensures
            removal is Ok ==> r == Removal::<E>::Removed,
            removal matches Err(e) ==> r == (if raw_os_error == Some(ERRNO_ENODATA) {
                Removal::<E>::Missing
            } else {
                Removal::<E>::Failed(e)
            }),
    {
        match removal {
            Ok(()) => Removal::Removed,
            Err(e) => {
                if is_data_not_found_error(raw_os_error) {
                    Removal::Missing
                } else {
                    Removal::Failed(e)
                }
            },
        }
    }
}

/// Why a job failed on a file.
pub enum JobError<E> {
    /// The path is not a regular file; the text says so.
    NotFound(String),
    /// A file-system call failed.
    Failed(E),
}

/// What a job printed for a file, in order, and how it ended.
pub struct Report<E> {
    pub lines: Vec<String>,
    pub result: Result<bool, JobError<E>>,
}

/// The text of each line.
pub open spec fn texts(lines: Seq<String>) -> Seq<Seq<char>> {
    lines.map_values(|s: String| s@)
}

/// The message for a path that is not a regular file.
pub open spec fn not_found_text(what: Seq<char>) -> Seq<char> {
    "Not found: "@ + what
}

/// The message for a path that is not a regular file: `Not found: `
/// followed by the path.
pub fn not_found_message(what: &str) -> (s: String)
    ensures
        s@ == not_found_text(what@),
{
    let mut s = String::from_str("Not found: ");
    s.append(what);
    s
}

/// Jobs work on regular files only: anything else is reported as not
/// found.
pub fn require_file<E>(path: &str, is_file: bool) -> (r: Result<(), JobError<E>>)
    ensures
        is_file ==> r is Ok,
        !is_file ==> (r matches Err(JobError::NotFound(m)) && m@ == not_found_text(path@)),
{
    if is_file {
        Ok(())
    } else {
        Err(JobError::NotFound(not_found_message(path)))
    }
}

/// The line that shows one digest: its hexadecimal text and the path;
/// when several algorithms are in use, also the algorithm's name,
/// right-aligned in ten columns between brackets.
pub open spec fn hash_line(single: bool, hash: Seq<u8>, hashtype: Seq<char>, path: Seq<char>) -> Seq<char> {
    if single {
        hex_of(hash) + "  "@ + path
    } else {
        hex_of(hash) + " ["@ + pad_left(hashtype, 10) + "] "@ + path
    }
}

/// The line that reports one check: the path, the algorithm's name when
/// several are in use, and `OK` or `Failed`.
pub open spec fn check_line(multi: bool, path: Seq<char>, hashtype: Seq<char>, ok: bool) -> Seq<char> {
    let status = if ok { "OK"@ } else { "Failed"@ };
    if multi {
        path + ": "@ + hashtype + " "@ + status
    } else {
        path + ": "@ + status
    }
}

/// The line that reports a removed digest.
pub open spec fn removed_line(path: Seq<char>, hashtype: Seq<char>) -> Seq<char> {
    path + ": removed "@ + hashtype
}

/// The abstract state of a [`HashUtil`].
pub struct HashUtilView {
    /// The algorithm names, in the order configured.
    pub hashes: Seq<Seq<char>>,
    pub verbose: bool,
}

impl HashUtilView {
    pub open spec fn single(self) -> bool {
        self.hashes.len() == 1
    }
}

/// The lookups up to (not including) `i` that found a digest, as lines.
pub open spec fn printed_lines<E>(v: HashUtilView, path: Seq<char>, lookups: Seq<AttrLookup<E>>, i: int) -> Seq<Seq<char>>
    decreases i,
{
    if i <= 0 {
        Seq::empty()
    } else {
        printed_lines(v, path, lookups, i - 1) + match lookups[i - 1] {
            AttrLookup::Found(b) => seq![hash_line(v.single(), b@, v.hashes[i - 1], path)],
            _ => Seq::empty(),
        }
    }
}

/// No lookup failed.
pub open spec fn none_failed<E>(lookups: Seq<AttrLookup<E>>) -> bool {
    forall|j: int| 0 <= j < lookups.len() ==> !(#[trigger] lookups[j] is Failed)
}

/// `k` is the first lookup that failed.
pub open spec fn first_failed<E>(lookups: Seq<AttrLookup<E>>, k: int) -> bool {
    &&& 0 <= k < lookups.len()
    &&& lookups[k] is Failed
    &&& forall|j: int| 0 <= j < k ==> !(#[trigger] lookups[j] is Failed)
}

/// Every lookup found a digest.
pub open spec fn all_found<E>(lookups: Seq<AttrLookup<E>>) -> bool {
    forall|j: int| 0 <= j < lookups.len() ==> #[trigger] lookups[j] is Found
}

/// `k` is the first lookup that did not find a digest.
pub open spec fn first_not_found<E>(lookups: Seq<AttrLookup<E>>, k: int) -> bool {
    &&& 0 <= k < lookups.len()
    &&& !(lookups[k] is Found)
    &&& forall|j: int| 0 <= j < k ==> #[trigger] lookups[j] is Found
}

/// The digests stored under the names up to `i`: a later name that
/// repeats an earlier one replaces its value.
pub open spec fn stored_digests<E>(hashes: Seq<Seq<char>>, lookups: Seq<AttrLookup<E>>, i: int) -> Map<Seq<char>, Seq<u8>>
    decreases i,
{
    if i <= 0 {
        Map::empty()
    } else {
        let m = stored_digests(hashes, lookups, i - 1);
        match lookups[i - 1] {
            AttrLookup::Found(b) => m.insert(hashes[i - 1], b@),
            _ => m,
        }
    }
}

/// The names up to `i` whose digest is missing, in order.
pub open spec fn missing_names<E>(hashes: Seq<Seq<char>>, lookups: Seq<AttrLookup<E>>, i: int) -> Seq<Seq<char>>
    decreases i,
{
    if i <= 0 {
        Seq::empty()
    } else {
        missing_names(hashes, lookups, i - 1) + match lookups[i - 1] {
            AttrLookup::Missing => seq![hashes[i - 1]],
            _ => Seq::empty(),
        }
    }
}

/// No two pairs share a name.
pub open spec fn distinct_names(pairs: Seq<(String, Vec<u8>)>) -> bool {
    forall|a: int, b: int| 0 <= a < b < pairs.len() ==> (#[trigger] pairs[a]).0@ != (#[trigger] pairs[b]).0@
}

/// The pairs, read as a map from name to bytes.
pub open spec fn pairs_map_agrees(pairs: Seq<(String, Vec<u8>)>, m: Map<Seq<char>, Seq<u8>>) -> bool {
    &&& forall|k: int| 0 <= k < pairs.len() ==> m.dom().contains((#[trigger] pairs[k]).0@) && m[pairs[k].0@] == pairs[k].1@
    &&& forall|name: Seq<char>| #[trigger] m.dom().contains(name) ==> exists|k: int| 0 <= k < pairs.len() && (#[trigger] pairs[k]).0@ == name
}

/// The bytes paired with `name`, where names are distinct.
pub open spec fn value_of(pairs: Seq<(String, Vec<u8>)>, name: Seq<char>) -> Seq<u8> {
    pairs[choose|j: int| 0 <= j < pairs.len() && (#[trigger] pairs[j]).0@ == name].1@
}

pub open spec fn has_name(pairs: Seq<(String, Vec<u8>)>, name: Seq<char>) -> bool {
    exists|j: int| 0 <= j < pairs.len() && (#[trigger] pairs[j]).0@ == name
}

proof fn lemma_missing_names_nonempty<E>(hashes: Seq<Seq<char>>, lookups: Seq<AttrLookup<E>>, i: int)
    requires
        0 <= i <= lookups.len(),
    ensures
        missing_names(hashes, lookups, i).len() > 0 <==> exists|j: int| 0 <= j < i && #[trigger] lookups[j] is Missing,
    decreases i,
{
    if i > 0 {
        lemma_missing_names_nonempty(hashes, lookups, i - 1);
        if lookups[i - 1] is Missing {
            assert(missing_names(hashes, lookups, i).len() > 0);
        } else {
            assert(missing_names(hashes, lookups, i) =~= missing_names(hashes, lookups, i - 1));
            assert forall|j: int| 0 <= j < i && #[trigger] lookups[j] is Missing implies j < i - 1 by {}
        }
    }
}

proof fn lemma_first_not_found_exists<E>(lookups: Seq<AttrLookup<E>>, i: int)
    requires
        0 <= i <= lookups.len(),
        exists|j: int| 0 <= j < i && !(#[trigger] lookups[j] is Found),
    ensures
        exists|k: int| first_not_found(lookups, k),
    decreases i,
{
    if forall|j: int| 0 <= j < i - 1 ==> #[trigger] lookups[j] is Found {
        assert(first_not_found(lookups, i - 1));
    } else {
        lemma_first_not_found_exists(lookups, i - 1);
    }
}

/// When no read failed, a file is listed as lacking a digest exactly
/// when setting digests would compute at least one for it.
pub proof fn lemma_unhashed_iff_digests_to_set<E>(v: HashUtilView, lookups: Seq<AttrLookup<E>>)
    requires
        none_failed(lookups),
        lookups.len() == v.hashes.len(),
    ensures
        (exists|k: int| first_not_found(lookups, k) && lookups[k] is Missing)
            <==> missing_names(v.hashes, lookups, lookups.len() as int).len() > 0,
{
    let n = lookups.len() as int;
    lemma_missing_names_nonempty(v.hashes, lookups, n);
    if missing_names(v.hashes, lookups, n).len() > 0 {
        let j = choose|j: int| 0 <= j < n && #[trigger] lookups[j] is Missing;
        lemma_first_not_found_exists(lookups, n);
        let k = choose|k: int| first_not_found(lookups, k);
        assert(!(lookups[k] is Failed));
        assert(lookups[k] is Missing);
    }
    if exists|k: int| first_not_found(lookups, k) && lookups[k] is Missing {
        let k = choose|k: int| first_not_found(lookups, k) && lookups[k] is Missing;
        assert(lookups[k] is Missing);
    }
}

/// Setting digests a second time does nothing: once every digest is
/// stored (every lookup finds one), [`HashUtil::set_targets`] answers
/// that there is nothing to do, so the file is neither read nor changed
/// and nothing is printed.
pub proof fn lemma_nothing_to_set_when_all_found<E>(v: HashUtilView, lookups: Seq<AttrLookup<E>>)
    requires
        all_found(lookups),
        lookups.len() == v.hashes.len(),
    ensures
        missing_names(v.hashes, lookups, lookups.len() as int).len() == 0,
{
    lemma_missing_names_nonempty(v.hashes, lookups, lookups.len() as int);
    assert forall|j: int| 0 <= j < lookups.len() implies !(#[trigger] lookups[j] is Missing) by {
        assert(lookups[j] is Found);
    }
}

/// The digests to check are exactly the ones found: every algorithm
/// whose lookup found a stored digest is among them, nothing else is,
/// and a name keeps the bytes of its last lookup that found one.
pub proof fn lemma_stored_digests_are_the_found<E>(hashes: Seq<Seq<char>>, lookups: Seq<AttrLookup<E>>, i: int)
    requires
        0 <= i <= lookups.len(),
        i <= hashes.len(),
    ensures
        forall|k: int| 0 <= k < i && #[trigger] lookups[k] is Found ==> stored_digests(hashes, lookups, i).dom().contains(hashes[k]),
        forall|name: Seq<char>| #[trigger] stored_digests(hashes, lookups, i).dom().contains(name)
            ==> exists|k: int| 0 <= k < i && #[trigger] lookups[k] is Found && hashes[k] == name,
        forall|k: int| 0 <= k < i && #[trigger] lookups[k] is Found
            && (forall|j: int| k < j < i && #[trigger] hashes[j] == hashes[k] ==> !(lookups[j] is Found))
            ==> stored_digests(hashes, lookups, i)[hashes[k]] == lookups[k]->Found_0@,
    decreases i,
{
    if i > 0 {
        lemma_stored_digests_are_the_found(hashes, lookups, i - 1);
        let prev = stored_digests(hashes, lookups, i - 1);
        let m = stored_digests(hashes, lookups, i);
        assert forall|k: int| 0 <= k < i && #[trigger] lookups[k] is Found implies m.dom().contains(hashes[k]) by {
            if k < i - 1 {
                assert(prev.dom().contains(hashes[k]));
            }
        }
        assert forall|name: Seq<char>| #[trigger] m.dom().contains(name)
            implies exists|k: int| 0 <= k < i && #[trigger] lookups[k] is Found && hashes[k] == name by {
            if lookups[i - 1] is Found && name == hashes[i - 1] {
                assert(lookups[i - 1] is Found && hashes[i - 1] == name);
            } else {
                assert(prev.dom().contains(name));
                let k = choose|k: int| 0 <= k < i - 1 && #[trigger] lookups[k] is Found && hashes[k] == name;
                assert(0 <= k < i && lookups[k] is Found && hashes[k] == name);
            }
        }
        assert forall|k: int| 0 <= k < i && #[trigger] lookups[k] is Found
            && (forall|j: int| k < j < i && #[trigger] hashes[j] == hashes[k] ==> !(lookups[j] is Found))
            implies m[hashes[k]] == lookups[k]->Found_0@ by {
            if k < i - 1 {
                if hashes[i - 1] == hashes[k] {
                    assert(!(lookups[i - 1] is Found));
                }
                assert forall|j: int| k < j < i - 1 && #[trigger] hashes[j] == hashes[k] implies !(lookups[j] is Found) by {}
            }
        }
    }
}

proof fn lemma_targets_cover_found<E>(out: Seq<(String, Vec<u8>)>, hs: Seq<Seq<char>>, all: Seq<AttrLookup<E>>, k: int)
    requires
        all.len() == hs.len(),
        pairs_map_agrees(out, stored_digests(hs, all, all.len() as int)),
        0 <= k < all.len(),
        all[k] is Found,
    ensures
        has_name(out, hs[k]),
{
    lemma_stored_digests_are_the_found(hs, all, all.len() as int);
    assert(stored_digests(hs, all, all.len() as int).dom().contains(hs[k]));
}

proof fn lemma_target_was_found<E>(out: Seq<(String, Vec<u8>)>, hs: Seq<Seq<char>>, all: Seq<AttrLookup<E>>, t: int)
    requires
        all.len() == hs.len(),
        pairs_map_agrees(out, stored_digests(hs, all, all.len() as int)),
        0 <= t < out.len(),
    ensures
        found_name(hs, all, out[t].0@),
{
    lemma_stored_digests_are_the_found(hs, all, all.len() as int);
    assert(stored_digests(hs, all, all.len() as int).dom().contains(out[t].0@));
}

proof fn lemma_target_value_is_last_found<E>(out: Seq<(String, Vec<u8>)>, hs: Seq<Seq<char>>, all: Seq<AttrLookup<E>>, k: int)
    requires
        all.len() == hs.len(),
        distinct_names(out),
        pairs_map_agrees(out, stored_digests(hs, all, all.len() as int)),
        0 <= k < all.len(),
        all[k] is Found,
        forall|j: int| k < j < all.len() && #[trigger] hs[j] == hs[k] ==> !(all[j] is Found),
    ensures
        value_of(out, hs[k]) == all[k]->Found_0@,
{
    let m = stored_digests(hs, all, all.len() as int);
    lemma_stored_digests_are_the_found(hs, all, all.len() as int);
    assert(m[hs[k]] == all[k]->Found_0@);
    assert(m.dom().contains(hs[k]));
    let t = choose|t: int| 0 <= t < out.len() && (#[trigger] out[t]).0@ == hs[k];
    assert(m[out[t].0@] == out[t].1@);
}

/// Some lookup of the algorithm called `name` found a stored digest.
pub open spec fn found_name<E>(hashes: Seq<Seq<char>>, lookups: Seq<AttrLookup<E>>, name: Seq<char>) -> bool {
    exists|k: int| 0 <= k < lookups.len() && #[trigger] lookups[k] is Found && hashes[k] == name
}

/// `idx` lists, in increasing order, exactly the positions of `lookups`
/// whose digest is missing.
pub open spec fn missing_positions<E>(idx: Seq<int>, lookups: Seq<AttrLookup<E>>) -> bool {
    &&& forall|a: int, b: int| 0 <= a < b < idx.len() ==> #[trigger] idx[a] < #[trigger] idx[b]
    &&& forall|t: int| 0 <= t < idx.len() ==> 0 <= #[trigger] idx[t] < lookups.len() && lookups[idx[t]] is Missing
    &&& forall|j: int| 0 <= j < lookups.len() && #[trigger] lookups[j] is Missing
        ==> exists|t: int| 0 <= t < idx.len() && #[trigger] idx[t] == j
}

/// The names to set are exactly the names of the missing digests, in
/// the configured order: one per missing digest, none for any other.
pub proof fn lemma_missing_names_are_the_missing<E>(hashes: Seq<Seq<char>>, lookups: Seq<AttrLookup<E>>, i: int)
    -> (idx: Seq<int>)
    requires
        0 <= i <= lookups.len(),
        i <= hashes.len(),
    ensures
        missing_positions(idx, lookups.take(i)),
        idx.len() == missing_names(hashes, lookups, i).len(),
        forall|t: int| 0 <= t < idx.len() ==> missing_names(hashes, lookups, i)[t] == hashes[#[trigger] idx[t]],
    decreases i,
{
    if i == 0 {
        Seq::empty()
    } else {
        let prev = lemma_missing_names_are_the_missing(hashes, lookups, i - 1);
        let pre = lookups.take(i - 1);
        let cur = lookups.take(i);
        assert forall|j: int| 0 <= j < i - 1 implies #[trigger] pre[j] == cur[j] by {}
        if lookups[i - 1] is Missing {
            let idx = prev.push(i - 1);
            assert forall|t: int| 0 <= t < prev.len() implies #[trigger] prev[t] < i - 1 by {
                assert(0 <= prev[t] < pre.len());
            }
            assert forall|a: int, b: int| 0 <= a < b < idx.len() implies #[trigger] idx[a] < #[trigger] idx[b] by {
                if b == prev.len() {
                    assert(prev[a] < i - 1);
                } else {
                    assert(idx[a] == prev[a] && idx[b] == prev[b]);
                }
            }
            assert forall|t: int| 0 <= t < idx.len() implies 0 <= #[trigger] idx[t] < cur.len() && cur[idx[t]] is Missing by {
                if t < prev.len() {
                    assert(idx[t] == prev[t]);
                    assert(pre[prev[t]] is Missing);
                    assert(prev[t] < i - 1);
                }
            }
            assert forall|j: int| 0 <= j < cur.len() && #[trigger] cur[j] is Missing
                implies exists|t: int| 0 <= t < idx.len() && #[trigger] idx[t] == j by {
                if j == i - 1 {
                    assert(idx[prev.len() as int] == j);
                } else {
                    assert(pre[j] is Missing);
                    let t = choose|t: int| 0 <= t < prev.len() && #[trigger] prev[t] == j;
                    assert(idx[t] == j);
                }
            }
            assert forall|t: int| 0 <= t < idx.len() implies missing_names(hashes, lookups, i)[t] == hashes[#[trigger] idx[t]] by {
                if t < prev.len() {
                    assert(idx[t] == prev[t]);
                }
            }
            idx
        } else {
            assert(missing_names(hashes, lookups, i) =~= missing_names(hashes, lookups, i - 1));
            assert forall|t: int| 0 <= t < prev.len() implies 0 <= #[trigger] prev[t] < cur.len() && cur[prev[t]] is Missing by {
                assert(pre[prev[t]] is Missing);
            }
            assert forall|j: int| 0 <= j < cur.len() && #[trigger] cur[j] is Missing
                implies exists|t: int| 0 <= t < prev.len() && #[trigger] prev[t] == j by {
                assert(j != i - 1);
                assert(pre[j] is Missing);
            }
            prev
        }
    }
}

/// The jobs' settings: the digest algorithms to use and whether to
/// report removals.
pub struct HashUtil {
    hashes: Vec<String>,
    verbose: bool,
}

impl View for HashUtil {
    type V = HashUtilView;

    closed spec fn view(&self) -> HashUtilView {
        HashUtilView { hashes: texts(self.hashes@), verbose: self.verbose }
    }
}

impl HashUtil {
    pub fn new(hashes: Vec<String>, verbose: bool) -> (u: Self)
        ensures
            u@.hashes == texts(hashes@),
            u@.verbose == verbose,
    {
        HashUtil { hashes, verbose }
    }

    /// The configured algorithm names.
    pub fn hashes(&self) -> (h: &Vec<String>)
        ensures
            texts(h@) == self@.hashes,
    {
        &self.hashes
    }

    /// The line that shows digest `hash` of algorithm `hashtype` for
    /// `path`.
    pub fn print_one(&self, hash: &[u8], hashtype: &str, path: &str) -> (line: String)
        ensures
            line@ == hash_line(self@.single(), hash@, hashtype@, path@),
    {
        let mut line = hex_string(hash);
        if self.hashes.len() == 1 {
            line.append("  ");
            line.append(path);
        } else {
            line.append(" [");
            push_padded(&mut line, hashtype, 10);
            line.append("] ");
            line.append(path);
        }
        line
    }

    /// Shows the stored digests of `path`, one line per algorithm that
    /// has one, in the configured order; algorithms without one are
    /// passed over. A failed read ends the job with that error, after
    /// the lines for the algorithms before it.
    pub fn print_hash<E>(&self, path: &str, lookups: Vec<AttrLookup<E>>) -> (r: Report<E>)
        requires
            lookups@.len() == self@.hashes.len(),
        ensures
            none_failed(lookups@) ==> texts(r.lines@) == printed_lines(self@, path@, lookups@, lookups@.len() as int)
                && r.result == Ok::<bool, JobError<E>>(true),
            forall|k: int| first_failed(lookups@, k) ==> texts(r.lines@) == printed_lines(self@, path@, lookups@, k)
                && r.result == Err::<bool, JobError<E>>(JobError::Failed(lookups@[k]->Failed_0)),
    {
        let ghost all = lookups@;
        let ghost v = self@;
        let mut rest = lookups;
        let mut lines: Vec<String> = Vec::new();
        let n = self.hashes.len();
        let mut i: usize = 0;
        while i < n
            invariant
                n == self.hashes@.len(),
                n == all.len(),
                all == lookups@,
                v == self@,
                i <= n,
                rest@ == all.subrange(i as int, n as int),
                texts(lines@) == printed_lines(v, path@, all, i as int),
                forall|j: int| 0 <= j < i ==> !(#[trigger] all[j] is Failed),
            decreases n - i,
        {
            let item = rest.remove(0);
            assert(item == all[i as int]);
            match item {
                AttrLookup::Found(b) => {
                    let line = self.print_one(b.as_slice(), self.hashes[i].as_str(), path);
                    lines.push(line);
                    assert(texts(lines@) =~= printed_lines(v, path@, all, i as int)
                        + seq![hash_line(v.single(), b@, v.hashes[i as int], path@)]);
                },
                AttrLookup::Missing => {
                    assert(texts(lines@) =~= printed_lines(v, path@, all, i as int + 1));
                },
                AttrLookup::Failed(e) => {
                    proof {
                        assert(all[i as int] is Failed);
                        assert(all[i as int]->Failed_0 == e);
                        assert(!none_failed(all));
                        assert(first_failed(all, i as int));
                        assert forall|k: int| first_failed(all, k) implies k == i by {
                            if k < i {
                                assert(!(all[k] is Failed));
                            }
                            if k > i {
                                assert(!(all[i as int] is Failed));
                            }
                        }
                    }
                    return Report { lines, result: Err(JobError::Failed(e)) };
                },
            }
            assert(rest@ =~= all.subrange(i as int + 1, n as int));
            i = i + 1;
        }
        proof {
            assert forall|k: int| !first_failed(all, k) by {
                if 0 <= k < n && all[k] is Failed {
                    assert(!(all[k] is Failed));
                }
            }
        }
        Report { lines, result: Ok(true) }
    }

    /// Prints the path of a file that lacks a stored digest: the first
    /// lookup that did not find one decides, printing the path when the
    /// digest is missing and ending the job with the error when the read
    /// failed.
    pub fn find_unhashed<E>(&self, path: &str, lookups: Vec<AttrLookup<E>>) -> (r: Report<E>)
        requires
            lookups@.len() == self@.hashes.len(),
        ensures
            all_found(lookups@) ==> r.lines@.len() == 0 && r.result == Ok::<bool, JobError<E>>(true),
            forall|k: int| first_not_found(lookups@, k) && lookups@[k] is Missing ==>
                texts(r.lines@) == seq![path@] && r.result == Ok::<bool, JobError<E>>(true),
            forall|k: int| first_not_found(lookups@, k) && lookups@[k] is Failed ==>
                r.lines@.len() == 0 && r.result == Err::<bool, JobError<E>>(JobError::Failed(lookups@[k]->Failed_0)),
    {
        let ghost all = lookups@;
        let mut rest = lookups;
        let n = rest.len();
        let mut i: usize = 0;
        while i < n
            invariant
                n == all.len(),
                all == lookups@,
                i <= n,
                rest@ == all.subrange(i as int, n as int),
                forall|j: int| 0 <= j < i ==> #[trigger] all[j] is Found,
            decreases n - i,
        {
            let item = rest.remove(0);
            assert(item == all[i as int]);
            proof {
                if !(item is Found) {
                    assert(first_not_found(all, i as int));
                    assert forall|k: int| first_not_found(all, k) implies k == i by {
                        if k < i {
                            assert(all[k] is Found);
                        }
                        if k > i {
                            assert(all[i as int] is Found);
                        }
                    }
                }
            }
            match item {
                AttrLookup::Found(_) => {},
                AttrLookup::Missing => {
                    assert(!(all[i as int] is Found));
                    assert(!all_found(all));
                    assert(all[i as int] is Missing);
                    let mut lines: Vec<String> = Vec::new();
                    lines.push(path.to_owned());
                    assert(texts(lines@) =~= seq![path@]);
                    return Report { lines, result: Ok(true) };
                },
                AttrLookup::Failed(e) => {
                    assert(!(all[i as int] is Found));
                    assert(!all_found(all));
                    assert(all[i as int]->Failed_0 == e);
                    return Report { lines: Vec::new(), result: Err(JobError::Failed(e)) };
                },
            }
            assert(rest@ =~= all.subrange(i as int + 1, n as int));
            i = i + 1;
        }
        proof {
            assert forall|k: int| !first_not_found(all, k) by {
                if 0 <= k < n && !(all[k] is Found) {
                    assert(all[k] is Found);
                }
            }
        }
        Report { lines: Vec::new(), result: Ok(true) }
    }

    /// The digests to check: one pair per algorithm name whose stored
    /// digest was found, with the stored bytes (a repeated name keeps the
    /// value of its last lookup). Missing digests and failed reads are
    /// passed over.
    pub fn check_targets<E>(&self, lookups: Vec<AttrLookup<E>>) -> (out: Vec<(String, Vec<u8>)>)
        requires
            lookups@.len() == self@.hashes.len(),
        ensures
            distinct_names(out@),
            pairs_map_agrees(out@, stored_digests(self@.hashes, lookups@, lookups@.len() as int)),
            forall|k: int| 0 <= k < lookups@.len() && #[trigger] lookups@[k] is Found
                ==> has_name(out@, self@.hashes[k]),
            forall|t: int| 0 <= t < out@.len() ==> #[trigger] found_name(self@.hashes, lookups@, out@[t].0@),
            forall|k: int| 0 <= k < lookups@.len() && #[trigger] lookups@[k] is Found
                && (forall|j: int| k < j < lookups@.len() && #[trigger] self@.hashes[j] == self@.hashes[k]
                    ==> !(lookups@[j] is Found))
                ==> value_of(out@, self@.hashes[k]) == lookups@[k]->Found_0@,
    {
        let ghost all = lookups@;
        let ghost hs = self@.hashes;
        let mut rest = lookups;
        let mut out: Vec<(String, Vec<u8>)> = Vec::new();
        let n = self.hashes.len();
        let mut i: usize = 0;
        while i < n
            invariant
                n == self.hashes@.len(),
                n == all.len(),
                all == lookups@,
                hs == self@.hashes,
                hs == texts(self.hashes@),
                i <= n,
                rest@ == all.subrange(i as int, n as int),
                distinct_names(out@),
                pairs_map_agrees(out@, stored_digests(hs, all, i as int)),
            decreases n - i,
        {
            let item = rest.remove(0);
            assert(item == all[i as int]);
            let ghost before = stored_digests(hs, all, i as int);
            match item {
                AttrLookup::Found(b) => {
                    let name = self.hashes[i].clone();
                    assert(name@ == hs[i as int]);
                    let ghost after = before.insert(name@, b@);
                    assert(stored_digests(hs, all, i as int + 1) == after);
                    let m = out.len();
                    let mut j: usize = 0;
                    let mut at: Option<usize> = None;
                    while j < m && at.is_none()
                        invariant
                            m == out@.len(),
                            j <= m,
                            at is None ==> forall|t: int| 0 <= t < j ==> (#[trigger] out@[t]).0@ != name@,
                            at matches Some(t) ==> t < m && out@[t as int].0@ == name@,
                        decreases m - j + (if at is None { 1int } else { 0int }),
                    {
                        if out[j].0 == name {
                            at = Some(j);
                        } else {
                            j = j + 1;
                        }
                    }
                    match at {
                        Some(t) => {
                            let ghost old_out = out@;
                            out.set(t, (name, b));
                            proof {
                                assert forall|k: int| 0 <= k < out@.len() implies
                                    after.dom().contains((#[trigger] out@[k]).0@) && after[out@[k].0@] == out@[k].1@ by {
                                    if k != t {
                                        assert(old_out[k] == out@[k]);
                                        assert(old_out[k].0@ != old_out[t as int].0@);
                                    }
                                }
                                assert forall|nm: Seq<char>| #[trigger] after.dom().contains(nm) implies
                                    exists|k: int| 0 <= k < out@.len() && (#[trigger] out@[k]).0@ == nm by {
                                    if nm == name@ {
                                        assert(out@[t as int].0@ == nm);
                                    } else {
                                        let k = choose|k: int| 0 <= k < old_out.len() && (#[trigger] old_out[k]).0@ == nm;
                                        assert(out@[k] == old_out[k] || k == t);
                                    }
                                }
                                assert forall|a: int, c: int| 0 <= a < c < out@.len() implies
                                    (#[trigger] out@[a]).0@ != (#[trigger] out@[c]).0@ by {
                                    assert(old_out[a].0@ != old_out[c].0@);
                                    if a == t {
                                        assert(out@[c] == old_out[c]);
                                    } else if c == t {
                                        assert(out@[a] == old_out[a]);
                                    } else {
                                        assert(out@[a] == old_out[a]);
                                        assert(out@[c] == old_out[c]);
                                    }
                                }
                            }
                        },
                        None => {
                            let ghost old_out = out@;
                            out.push((name, b));
                            proof {
                                assert forall|k: int| 0 <= k < out@.len() implies
                                    after.dom().contains((#[trigger] out@[k]).0@) && after[out@[k].0@] == out@[k].1@ by {
                                    if k < m {
                                        assert(old_out[k] == out@[k]);
                                        assert(old_out[k].0@ != name@);
                                    }
                                }
                                assert forall|nm: Seq<char>| #[trigger] after.dom().contains(nm) implies
                                    exists|k: int| 0 <= k < out@.len() && (#[trigger] out@[k]).0@ == nm by {
                                    if nm == name@ {
                                        assert(out@[m as int].0@ == nm);
                                    } else {
                                        let k = choose|k: int| 0 <= k < old_out.len() && (#[trigger] old_out[k]).0@ == nm;
                                        assert(out@[k] == old_out[k]);
                                    }
                                }
                                assert forall|a: int, c: int| 0 <= a < c < out@.len() implies
                                    (#[trigger] out@[a]).0@ != (#[trigger] out@[c]).0@ by {
                                    assert(out@[a] == old_out[a]);
                                    if c < m {
                                        assert(out@[c] == old_out[c]);
                                    }
                                }
                            }
                        },
                    }
                },
                _ => {
                    assert(stored_digests(hs, all, i as int + 1) == before);
                },
            }
            assert(rest@ =~= all.subrange(i as int + 1, n as int));
            i = i + 1;
        }
        proof {
            assert forall|k: int| 0 <= k < all.len() && #[trigger] all[k] is Found implies has_name(out@, hs[k]) by {
                lemma_targets_cover_found(out@, hs, all, k);
            }
            assert forall|t: int| 0 <= t < out@.len() implies #[trigger] found_name(hs, all, out@[t].0@) by {
                lemma_target_was_found(out@, hs, all, t);
            }
            assert forall|k: int| 0 <= k < all.len() && #[trigger] all[k] is Found
                && (forall|j: int| k < j < all.len() && #[trigger] hs[j] == hs[k] ==> !(all[j] is Found))
                implies value_of(out@, hs[k]) == all[k]->Found_0@ by {
                lemma_target_value_is_last_found(out@, hs, all, k);
            }
        }
        out
    }

    /// Compares each expected digest with the one computed for its name:
    /// one line per name, in order, and whether all agreed.
    pub fn check_report(&self, path: &str, expected: &Vec<(String, Vec<u8>)>, actual: &Vec<(String, Vec<u8>)>)
        -> (r: (Vec<String>, bool))
        requires
            distinct_names(actual@),
            forall|k: int| 0 <= k < expected@.len() ==> has_name(actual@, (#[trigger] expected@[k]).0@),
        ensures
            r.0@.len() == expected@.len(),
            forall|k: int| 0 <= k < expected@.len() ==> (#[trigger] r.0@[k])@ == check_line(
                self@.hashes.len() > 1,
                path@,
                expected@[k].0@,
                expected@[k].1@ == value_of(actual@, expected@[k].0@),
            ),
            r.1 == forall|k: int| 0 <= k < expected@.len() ==>
                (#[trigger] expected@[k]).1@ == value_of(actual@, expected@[k].0@),
    {
        let multi = self.hashes.len() > 1;
        let mut lines: Vec<String> = Vec::new();
        let mut ret = true;
        let n = expected.len();
        let mut i: usize = 0;
        while i < n
            invariant
                n == expected@.len(),
                multi == (self@.hashes.len() > 1),
                distinct_names(actual@),
                forall|k: int| 0 <= k < expected@.len() ==> has_name(actual@, (#[trigger] expected@[k]).0@),
                i <= n,
                lines@.len() == i,
                forall|k: int| 0 <= k < i ==> (#[trigger] lines@[k])@ == check_line(
                    multi,
                    path@,
                    expected@[k].0@,
                    expected@[k].1@ == value_of(actual@, expected@[k].0@),
                ),
                ret == forall|k: int| 0 <= k < i ==>
                    (#[trigger] expected@[k]).1@ == value_of(actual@, expected@[k].0@),
            decreases n - i,
        {
            let name = &expected[i].0;
            assert(has_name(actual@, expected@[i as int].0@));
            let m = actual.len();
            let mut j: usize = 0;
            let mut hit = false;
            while j < m && !hit
                invariant
                    m == actual@.len(),
                    j <= m,
                    has_name(actual@, name@),
                    forall|t: int| 0 <= t < j ==> (#[trigger] actual@[t]).0@ != name@,
                    hit ==> j < m && actual@[j as int].0@ == name@,
                decreases m - j + (if hit { 0int } else { 1int }),
            {
                if actual[j].0 == *name {
                    hit = true;
                } else {
                    j = j + 1;
                }
            }
            if !hit {
                proof {
                    let t = choose|t: int| 0 <= t < actual@.len() && (#[trigger] actual@[t]).0@ == name@;
                    assert(actual@[t].0@ != name@);
                }
            }
            assert(j < m && actual@[j as int].0@ == name@);
            proof {
                let c = choose|t: int| 0 <= t < actual@.len() && (#[trigger] actual@[t]).0@ == name@;
                if c != j {
                    if c < j {
                        assert(actual@[c].0@ != actual@[j as int].0@);
                    } else {
                        assert(actual@[j as int].0@ != actual@[c].0@);
                    }
                }
                assert(value_of(actual@, name@) == actual@[j as int].1@);
            }
            let ok = bytes_equal(expected[i].1.as_slice(), actual[j].1.as_slice());
            let mut line = String::from_str(path);
            line.append(": ");
            if multi {
                line.append(name.as_str());
                line.append(" ");
            }
            if ok {
                line.append("OK");
            } else {
                line.append("Failed");
            }
            lines.push(line);
            ret = ret && ok;
            i = i + 1;
        }
        (lines, ret)
    }

    /// What setting digests has to do for a file: `None` when no digest
    /// is missing, so that the file is neither read nor changed; otherwise
    /// the algorithms whose digest the file lacks, in the configured order.
    /// Only digests reported missing count; found digests and failed reads
    /// are passed over.
    pub fn set_targets<E>(&self, lookups: &Vec<AttrLookup<E>>) -> (r: Option<Vec<String>>)
        requires
            lookups@.len() == self@.hashes.len(),
        ensures
            missing_names(self@.hashes, lookups@, lookups@.len() as int).len() == 0 ==> r is None,
            missing_names(self@.hashes, lookups@, lookups@.len() as int).len() > 0 ==> (r matches Some(out)
                && texts(out@) == missing_names(self@.hashes, lookups@, lookups@.len() as int)),
            r is None <==> forall|j: int| 0 <= j < lookups@.len() ==> !(#[trigger] lookups@[j] is Missing),
            r matches Some(out) ==> exists|idx: Seq<int>| {
                &&& missing_positions(idx, lookups@)
                &&& idx.len() == out@.len()
                &&& forall|t: int| 0 <= t < idx.len() ==> (#[trigger] out@[t])@ == self@.hashes[idx[t]]
            },
    {
        let mut out: Vec<String> = Vec::new();
        let n = self.hashes.len();
        let mut i: usize = 0;
        while i < n
            invariant
                n == self.hashes@.len(),
                n == lookups@.len(),
                i <= n,
                texts(out@) == missing_names(self@.hashes, lookups@, i as int),
            decreases n - i,
        {
            match &lookups[i] {
                AttrLookup::Missing => {
                    out.push(self.hashes[i].clone());
                    assert(texts(out@) =~= missing_names(self@.hashes, lookups@, i as int + 1));
                },
                _ => {
                    assert(texts(out@) =~= missing_names(self@.hashes, lookups@, i as int + 1));
                },
            }
            i = i + 1;
        }
        let ghost idx = lemma_missing_names_are_the_missing(self@.hashes, lookups@, n as int);
        assert(lookups@.take(n as int) =~= lookups@);
        proof {
            assert forall|t: int| 0 <= t < idx.len() implies (#[trigger] out@[t])@ == self@.hashes[idx[t]] by {
                assert(texts(out@)[t] == out@[t]@);
            }
            if exists|j: int| 0 <= j < lookups@.len() && #[trigger] lookups@[j] is Missing {
                let j = choose|j: int| 0 <= j < lookups@.len() && #[trigger] lookups@[j] is Missing;
                let t = choose|t: int| 0 <= t < idx.len() && #[trigger] idx[t] == j;
                assert(out@.len() > 0);
            }
            if out@.len() > 0 {
                assert(lookups@[idx[0]] is Missing);
            }
        }
        if out.len() == 0 {
            None
        } else {
            Some(out)
        }
    }

    /// What one removal means for the job: a removed digest is reported
    /// when the job is verbose, a missing one is passed over, a failure
    /// ends the job.
    pub fn reset_step<E>(&self, path: &str, hash: &str, removal: Removal<E>) -> (r: Result<Option<String>, E>)
        ensures
            removal is Removed && self@.verbose ==> (r matches Ok(Some(s)) && s@ == removed_line(path@, hash@)),
            removal is Removed && !self@.verbose ==> r matches Ok(None),
            removal is Missing ==> r matches Ok(None),
            removal matches Removal::Failed(e) ==> r == Err::<Option<String>, E>(e),
    {
        match removal {
            Removal::Removed => {
                if self.verbose {
                    let mut s = String::from_str(path);
                    s.append(": removed ");
                    s.append(hash);
                    Ok(Some(s))
                } else {
                    Ok(None)
                }
            },
            Removal::Missing => Ok(None),
            Removal::Failed(e) => Err(e),
        }
    }
}

/// One step of a worker's loop: a file that passed keeps the running
/// verdict, one that failed turns it false, and an error ends the loop.
pub fn run_step<E>(ret: bool, outcome: Result<bool, E>) -> (r: Result<bool, E>)
    ensures
        outcome matches Ok(b) ==> r == Ok::<bool, E>(ret && b),
        outcome matches Err(e) ==> r == Err::<bool, E>(e),
{
    match outcome {
        Ok(b) => Ok(ret && b),
        Err(e) => Err(e),
    }
}

} // verus!
