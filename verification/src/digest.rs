//! Several message digests of one byte stream at once, computed by
//! OpenSSL.

use openssl::error::ErrorStack;
use openssl::hash::{Hasher, MessageDigest};
use vstd::prelude::*;

verus! {

#[verifier::external_type_specification]
#[verifier::external_body]
pub struct ExMessageDigest(MessageDigest);

#[verifier::external_type_specification]
#[verifier::external_body]
pub struct ExHasher(Hasher);

#[verifier::external_type_specification]
#[verifier::external_body]
pub struct ExErrorStack(ErrorStack);

/// The bytes fed to `h` since its digest was last started.
pub uninterp spec fn hasher_input(h: Hasher) -> Seq<u8>;

/// The digest algorithm that `h` was made with.
pub uninterp spec fn hasher_algorithm(h: Hasher) -> MessageDigest;

/// The digest that algorithm `md` computes for `data`. A
/// `MessageDigest` is OpenSSL's handle for one algorithm.
pub uninterp spec fn digest(md: MessageDigest, data: Seq<u8>) -> Seq<u8>;

/// OpenSSL answered a lookup of the algorithm named `name` with `r`:
/// the algorithm found, or `None` when it found none.
pub uninterp spec fn answered_for(name: Seq<char>, r: Option<MessageDigest>) -> bool;

/// Some lookup of the algorithm named `name` found one.
pub open spec fn lookup_found(name: Seq<char>) -> bool {
    exists|md: MessageDigest| answered_for(name, Some(md))
}

/// `MessageDigest::from_name`: looks a digest algorithm up by name in
/// OpenSSL's table. Which names are known depends on the OpenSSL library
/// that is linked, so nothing is promised of a found algorithm; a name
/// that holds a NUL character cannot be handed to OpenSSL and finds
/// nothing.
#[verifier::external_body]
fn digest_by_name(name: &str) -> (r: Option<MessageDigest>)
    ensures
        name@.contains('\0') ==> r is None,
        answered_for(name@, r),
{
    MessageDigest::from_name(name)
}

/// `Hasher::new`: a hasher for algorithm `md` that has been fed nothing.
/// It fails only when OpenSSL cannot set up a digest context.
#[verifier::external_body]
fn new_hasher(md: MessageDigest) -> (r: Result<Hasher, ErrorStack>)
    ensures
        r matches Ok(h) ==> hasher_input(h) == Seq::<u8>::empty() && hasher_algorithm(h) == md,
{
    Hasher::new(md)
}

/// `Hasher::update`: feeds `data` to `h`. The algorithm never changes;
/// when the call succeeds the bytes fed so far are followed by `data`.
#[verifier::external_body]
fn hasher_update(h: &mut Hasher, data: &[u8]) -> (r: Result<(), ErrorStack>)
    ensures
        hasher_algorithm(*final(h)) == hasher_algorithm(*old(h)),
        r is Ok ==> hasher_input(*final(h)) == hasher_input(*old(h)) + data@,
{
    h.update(data)
}

/// `Hasher::finish`: the digest of the bytes fed so far, by the
/// hasher's algorithm, copied out of OpenSSL's fixed buffer; on success
/// the hasher starts over with nothing fed.
#[verifier::external_body]
fn hasher_finish(h: &mut Hasher) -> (r: Result<Vec<u8>, ErrorStack>)
    ensures
        hasher_algorithm(*final(h)) == hasher_algorithm(*old(h)),
        r matches Ok(d) ==> d@ == digest(hasher_algorithm(*old(h)), hasher_input(*old(h)))
            && hasher_input(*final(h)) == Seq::<u8>::empty(),
{
    match h.finish() {
        Ok(bytes) => Ok(bytes.to_vec()),
        Err(e) => Err(e),
    }
}

/// Why digests could not be computed.
#[derive(Debug)]
pub enum HashError {
    /// OpenSSL knows no digest algorithm by this name.
    UnknownHash(String),
    /// OpenSSL failed while computing a digest.
    Crypto(ErrorStack),
}

/// The message for an algorithm name that OpenSSL does not know.
pub open spec fn unknown_hash_text(name: Seq<char>) -> Seq<char> {
    "unknown hash "@ + name
}

impl HashError {
    /// Sorts the error for reporting: an unknown algorithm is a
    /// not-found error with the message `unknown hash <name>`; an OpenSSL
    /// failure is handed back as it is.
    pub fn not_found_message(self) -> (r: Result<String, ErrorStack>)
        ensures
            self matches HashError::UnknownHash(n) ==> (r matches Ok(m) && m@ == unknown_hash_text(n@)),
            self matches HashError::Crypto(e) ==> r == Err::<String, ErrorStack>(e),
    {
        match self {
            HashError::UnknownHash(name) => {
                let mut m = String::from_str("unknown hash ");
                m.append(name.as_str());
                Ok(m)
            },
            HashError::Crypto(e) => Err(e),
        }
    }
}

/// The abstract state of a [`MultiHasher`].
pub struct MultiHasherView {
    /// The algorithm names, in the order given.
    pub names: Seq<Seq<char>>,
    /// The algorithm behind each name.
    pub algorithms: Seq<MessageDigest>,
    /// Everything fed so far.
    pub input: Seq<u8>,
}

/// One hasher per requested algorithm, all fed the same bytes.
pub struct MultiHasher {
    names: Vec<String>,
    hashers: Vec<Hasher>,
    input: Ghost<Seq<u8>>,
}

impl View for MultiHasher {
    type V = MultiHasherView;

    closed spec fn view(&self) -> MultiHasherView {
        MultiHasherView {
            names: self.names@.map_values(|s: String| s@),
            algorithms: self.hashers@.map_values(|h: Hasher| hasher_algorithm(h)),
            input: self.input@,
        }
    }
}

/// The names of `names`, as text.
pub open spec fn name_views(names: Seq<&str>) -> Seq<Seq<char>> {
    names.map_values(|s: &str| s@)
}

/// Every lookup found an algorithm.
pub open spec fn all_found(found: Seq<Option<MessageDigest>>) -> bool {
    forall|j: int| 0 <= j < found.len() ==> #[trigger] found[j] is Some
}

/// `k` is the first lookup that found nothing.
pub open spec fn first_missing(found: Seq<Option<MessageDigest>>, k: int) -> bool {
    &&& 0 <= k < found.len()
    &&& found[k] is None
    &&& forall|j: int| 0 <= j < k ==> #[trigger] found[j] is Some
}

/// The name and digest that finishing `v` gives for each of its
/// algorithms, in order.
pub open spec fn finished(v: MultiHasherView) -> Seq<(Seq<char>, Seq<u8>)> {
    Seq::new(v.names.len(), |i: int| (v.names[i], digest(v.algorithms[i], v.input)))
}

/// Each digest depends only on its own algorithm and the bytes fed:
/// hashers that were fed the same bytes and hold the same algorithms
/// under the same names in another order, or among other algorithms,
/// give every one of them the same name and digest.
pub proof fn lemma_digests_independent_of_order(v: MultiHasherView, w: MultiHasherView, p: Seq<int>)
    requires
        v.input == w.input,
        v.names.len() == v.algorithms.len(),
        w.names.len() == w.algorithms.len(),
        p.len() == w.names.len(),
        forall|k: int| 0 <= k < p.len() ==> 0 <= #[trigger] p[k] < v.names.len(),
        forall|k: int| 0 <= k < p.len() ==> w.names[k] == v.names[#[trigger] p[k]] && w.algorithms[k] == v.algorithms[p[k]],
    ensures
        forall|k: int| 0 <= k < p.len() ==> #[trigger] finished(w)[k] == finished(v)[p[k]],
{
}

impl MultiHasher {
    /// The hashers agree on what they were fed.
    #[verifier::type_invariant]
    closed spec fn wf(&self) -> bool {
        &&& self.names@.len() == self.hashers@.len()
        &&& forall|i: int| 0 <= i < self.hashers@.len() ==> #[trigger] hasher_input(self.hashers@[i]) == self.input@
    }

    /// Hashers for the algorithms named `names`, in that order. Fails
    /// with `UnknownHash` and the first name that OpenSSL does not know,
    /// or with `Crypto` when OpenSSL cannot set a hasher up; with no
    /// names there is nothing to look up or set up, and it succeeds. On
    /// success each name's algorithm is the one OpenSSL answered when that
    /// name was looked up. Which names
    /// are known is OpenSSL's to say: [`MultiHasher::from_digests`] states
    /// what follows from each answer.
    pub fn new(names: &[&str]) -> (r: Result<MultiHasher, HashError>)
        ensures
            r matches Ok(m) ==> m@.names == name_views(names@) && m@.algorithms.len() == names@.len()
                && m@.input == Seq::<u8>::empty()
                && forall|i: int| 0 <= i < names@.len() ==> answered_for(names@[i]@, Some(#[trigger] m@.algorithms[i])),
            r matches Err(HashError::UnknownHash(n)) ==> name_views(names@).contains(n@),
            r matches Err(HashError::UnknownHash(n)) ==> exists|k: int| {
                &&& 0 <= k < names@.len()
                &&& n@ == (#[trigger] names@[k])@
                &&& answered_for(n@, None)
                &&& forall|j: int| 0 <= j < k ==> lookup_found((#[trigger] names@[j])@)
            },
            r matches Err(HashError::Crypto(_)) ==> names@.len() > 0,
            (exists|k: int| 0 <= k < names@.len() && (#[trigger] names@[k])@.contains('\0'))
                ==> r matches Err(HashError::UnknownHash(_)),
    {
        let mut found: Vec<Option<MessageDigest>> = Vec::new();
        let mut i: usize = 0;
        while i < names.len()
            invariant
                i <= names@.len(),
                found@.len() == i,
                forall|j: int| 0 <= j < i && (#[trigger] names@[j])@.contains('\0') ==> found@[j] is None,
                forall|j: int| 0 <= j < i ==> answered_for(names@[j]@, #[trigger] found@[j]),
            decreases names@.len() - i,
        {
            found.push(digest_by_name(names[i]));
            i = i + 1;
        }
        let r = Self::from_digests(names, found);
        proof {
            if exists|k: int| 0 <= k < names@.len() && (#[trigger] names@[k])@.contains('\0') {
                let k = choose|k: int| 0 <= k < names@.len() && (#[trigger] names@[k])@.contains('\0');
                assert(found@[k] is None);
                assert(!all_found(found@));
            }
            if r is Ok {
                assert(all_found(found@));
                assert forall|i: int| 0 <= i < names@.len() implies
                    answered_for(names@[i]@, Some(#[trigger] r->Ok_0@.algorithms[i])) by {
                    assert(found@[i] is Some);
                    assert(r->Ok_0@.algorithms[i] == found@[i].unwrap());
                }
            }
            if r is Err && r->Err_0 is UnknownHash {
                let k = choose|k: int| first_missing(found@, k) && r->Err_0->UnknownHash_0@ == names@[k]@;
                assert(name_views(names@)[k] == r->Err_0->UnknownHash_0@);
                assert(answered_for(names@[k]@, found@[k]));
                assert forall|j: int| 0 <= j < k implies lookup_found((#[trigger] names@[j])@) by {
                    assert(found@[j] is Some);
                    assert(answered_for(names@[j]@, found@[j]));
                    assert(found@[j] == Some(found@[j].unwrap()));
                }
                let n = r->Err_0->UnknownHash_0;
                assert(found@[k] == None::<MessageDigest>);
                assert(answered_for(n@, None));
                assert(0 <= k < names@.len() && n@ == names@[k]@);
            }
        }
        r
    }

    /// Hashers for `names`, given what looking each name up found:
    /// `UnknownHash` with the name of the first lookup that found
    /// nothing; otherwise a hasher per algorithm, unless OpenSSL fails to
    /// set one up (with no names, nothing can fail).
    pub fn from_digests(names: &[&str], found: Vec<Option<MessageDigest>>) -> (r: Result<MultiHasher, HashError>)
        requires
            names@.len() == found@.len(),
        ensures
            !all_found(found@) ==> (r matches Err(HashError::UnknownHash(n))
                && exists|k: int| first_missing(found@, k) && n@ == names@[k]@),
            all_found(found@) ==> (r matches Ok(m) ==> m@.names == name_views(names@)
                && m@.algorithms == found@.map_values(|o: Option<MessageDigest>| o.unwrap())
                && m@.input == Seq::<u8>::empty()),
            all_found(found@) ==> !(r is Err && r->Err_0 is UnknownHash),
            r matches Err(HashError::Crypto(_)) ==> found@.len() > 0,
    {
        let n = names.len();
        let mut digests: Vec<MessageDigest> = Vec::new();
        let mut i: usize = 0;
        while i < n
            invariant
                n == names@.len(),
                n == found@.len(),
                i <= n,
                digests@.len() == i,
                forall|j: int| 0 <= j < i ==> #[trigger] found@[j] is Some,
                forall|j: int| 0 <= j < i ==> #[trigger] digests@[j] == found@[j].unwrap(),
            decreases n - i,
        {
            match found[i] {
                Some(md) => {
                    digests.push(md);
                },
                None => {
                    proof {
                        assert(first_missing(found@, i as int));
                    }
                    return Err(HashError::UnknownHash(names[i].to_owned()));
                },
            }
            i = i + 1;
        }
        assert(all_found(found@));
        let mut names_out: Vec<String> = Vec::new();
        let mut hashers: Vec<Hasher> = Vec::new();
        let mut i: usize = 0;
        while i < n
            invariant
                n == names@.len(),
                n == digests@.len(),
                n == found@.len(),
                all_found(found@),
                i <= n,
                names_out@.len() == i,
                hashers@.len() == i,
                forall|j: int| 0 <= j < i ==> #[trigger] names_out@[j]@ == names@[j]@,
                forall|j: int| 0 <= j < i ==> #[trigger] hasher_input(hashers@[j]) == Seq::<u8>::empty(),
                forall|j: int| 0 <= j < i ==> #[trigger] hasher_algorithm(hashers@[j]) == digests@[j],
            decreases n - i,
        {
            let h = match new_hasher(digests[i]) {
                Ok(h) => h,
                Err(e) => {
                    return Err(HashError::Crypto(e));
                },
            };
            hashers.push(h);
            names_out.push(names[i].to_owned());
            i = i + 1;
        }
        let m = MultiHasher { names: names_out, hashers, input: Ghost(Seq::empty()) };
        assert(m@.names =~= name_views(names@));
        assert(m@.algorithms =~= found@.map_values(|o: Option<MessageDigest>| o.unwrap()));
        Ok(m)
    }

    /// Feeds `data` to every hasher: on success everything fed so far is
    /// followed by `data`. Only OpenSSL can make it fail, so with no
    /// algorithms it always succeeds; on failure the hashers are dropped.
    pub fn update(self, data: &[u8]) -> (r: Result<MultiHasher, HashError>)
        ensures
            r matches Ok(m) ==> m@.names == self@.names && m@.algorithms == self@.algorithms
                && m@.input == self@.input + data@,
            r matches Err(e) ==> e is Crypto && self@.names.len() > 0,
    {
        proof {
            use_type_invariant(&self);
        }
        let ghost v = self@;
        let MultiHasher { names, mut hashers, input } = self;
        let ghost old_hashers = hashers@;
        let n = hashers.len();
        let mut i: usize = 0;
        while i < n
            invariant
                n == hashers@.len(),
                n == old_hashers.len(),
                names@.len() == n,
                v.names.len() == n,
                v == self@,
                v.input == input@,
                i <= n,
                forall|j: int| 0 <= j < n ==> #[trigger] hasher_algorithm(hashers@[j]) == hasher_algorithm(old_hashers[j]),
                forall|j: int| 0 <= j < i ==> #[trigger] hasher_input(hashers@[j]) == input@ + data@,
                forall|j: int| i <= j < n ==> #[trigger] hashers@[j] == old_hashers[j],
                forall|j: int| 0 <= j < n ==> #[trigger] hasher_input(old_hashers[j]) == input@,
            decreases n - i,
        {
            let r = hasher_update(&mut hashers[i], data);
            if let Err(e) = r {
                return Err(HashError::Crypto(e));
            }
            i = i + 1;
        }
        let m = MultiHasher { names, hashers, input: Ghost(input@ + data@) };
        assert(m@.algorithms =~= v.algorithms);
        Ok(m)
    }

    /// The digests of everything fed, one per name, in the order the
    /// names were given, each paired with its name. Only OpenSSL can make
    /// it fail, so with no algorithms it always succeeds, with no digests.
    pub fn finish(self) -> (r: Result<Vec<(String, Vec<u8>)>, HashError>)
        ensures
            r matches Err(e) ==> e is Crypto && self@.names.len() > 0,
            r matches Ok(out) ==> {
                &&& out@.len() == self@.names.len()
                &&& out@.len() == self@.algorithms.len()
                &&& out@.map_values(|o: (String, Vec<u8>)| (o.0@, o.1@)) == finished(self@)
                &&& forall|i: int| 0 <= i < out@.len() ==> {
                    &&& (#[trigger] out@[i]).0@ == self@.names[i]
                    &&& out@[i].1@ == digest(self@.algorithms[i], self@.input)
                }
            },
    {
        proof {
            use_type_invariant(&self);
        }
        let ghost v = self@;
        let MultiHasher { names, mut hashers, input } = self;
        let n = hashers.len();
        let mut out: Vec<(String, Vec<u8>)> = Vec::new();
        let mut i: usize = 0;
        while i < n
            invariant
                n == hashers@.len(),
                n == names@.len(),
                v.names == names@.map_values(|s: String| s@),
                v.names.len() == n,
                v == self@,
                v.input == input@,
                i <= n,
                out@.len() == i,
                forall|j: int| i <= j < n ==> #[trigger] hasher_input(hashers@[j]) == input@,
                forall|j: int| 0 <= j < n ==> #[trigger] hasher_algorithm(hashers@[j]) == v.algorithms[j],
                v.algorithms.len() == n,
                forall|j: int| 0 <= j < i ==> (#[trigger] out@[j]).0@ == v.names[j]
                    && out@[j].1@ == digest(v.algorithms[j], v.input),
            decreases n - i,
        {
            let d = match hasher_finish(&mut hashers[i]) {
                Ok(d) => d,
                Err(e) => {
                    return Err(HashError::Crypto(e));
                },
            };
            out.push((names[i].clone(), d));
            i = i + 1;
        }
        Ok(out)
    }
}

} // verus!
