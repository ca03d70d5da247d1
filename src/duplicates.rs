//! Exact-duplicate detection: a size pass picks the files worth hashing, and
//! files whose digests agree form a duplicate group.

use vstd::prelude::*;

verus! {

/// Another candidate has the same size as candidate `i`.
pub open spec fn size_shared(sizes: Seq<u64>, i: int) -> bool {
    exists|j: int| 0 <= j < sizes.len() && j != i && sizes[j] == sizes[i]
}

/// Candidate `i` is hashed: its size is not zero and not unique.
pub open spec fn needs_hash(sizes: Seq<u64>, i: int) -> bool {
    sizes[i] > 0 && size_shared(sizes, i)
}

/// Decides which candidates to hash: those of nonzero size that share their
/// size with another candidate.
pub fn detect_duplicates(sizes: &Vec<u64>) -> (r: Vec<bool>)
    ensures
        r@.len() == sizes@.len(),
        forall|i: int| 0 <= i < sizes@.len() ==> r@[i] == needs_hash(sizes@, i),
{
    let n = sizes.len();
    let mut r: Vec<bool> = Vec::new();
    let mut i: usize = 0;
    while i < n
        invariant
            n == sizes@.len(),
            i <= n,
            r@.len() == i,
            forall|k: int| 0 <= k < i ==> r@[k] == needs_hash(sizes@, k),
        decreases n - i,
    {
        let mut shared = false;
        if sizes[i] > 0 {
            let mut j: usize = 0;
            while j < n
                invariant
                    n == sizes@.len(),
                    i < n,
                    j <= n,
                    shared == exists|t: int| 0 <= t < j && t != i && sizes@[t] == sizes@[i as int],
                decreases n - j,
            {
                if j != i && sizes[j] == sizes[i] {
                    shared = true;
                }
                j += 1;
            }
        }
        r.push(shared);
        i += 1;
    }
    r
}

/// The view of a list of optional digests.
pub open spec fn digests_view(ds: Seq<Option<String>>) -> Seq<Option<Seq<char>>> {
    ds.map_values(|o: Option<String>| match o {
        Some(s) => Some(s@),
        None => None,
    })
}

/// Entry `t` has size `s` and digest `d`.
pub open spec fn in_group(sizes: Seq<u64>, ds: Seq<Option<Seq<char>>>, t: int, s: u64, d: Seq<char>) -> bool {
    sizes[t] == s && ds[t] == Some(d)
}

/// How many of the first `n` entries have size `s` and digest `d`.
pub open spec fn count_group(sizes: Seq<u64>, ds: Seq<Option<Seq<char>>>, s: u64, d: Seq<char>, n: int) -> nat
    decreases n,
{
    if n <= 0 {
        0
    } else {
        count_group(sizes, ds, s, d, n - 1) + if in_group(sizes, ds, n - 1, s, d) { 1nat } else { 0nat }
    }
}

/// The size of the duplicate group of entry `i`: how many entries share both
/// its size and its digest, or 0 where it has no digest.
pub open spec fn group_size(sizes: Seq<u64>, ds: Seq<Option<Seq<char>>>, i: int) -> nat {
    match ds[i] {
        Some(d) => count_group(sizes, ds, sizes[i], d, ds.len() as int),
        None => 0,
    }
}

/// Two distinct entries of one size and one digest make a group of at least two.
pub proof fn lemma_two_in_group(sizes: Seq<u64>, ds: Seq<Option<Seq<char>>>, s: u64, d: Seq<char>, n: int, i: int, j: int)
    requires
        0 <= i < n,
        0 <= j < n,
        i != j,
        in_group(sizes, ds, i, s, d),
        in_group(sizes, ds, j, s, d),
    ensures
        count_group(sizes, ds, s, d, n) >= 2,
    decreases n,
{
    let last = n - 1;
    if i == last || j == last {
        let other = if i == last { j } else { i };
        lemma_one_in_group(sizes, ds, s, d, n - 1, other);
    } else {
        lemma_two_in_group(sizes, ds, s, d, n - 1, i, j);
    }
}

/// An entry of the group is counted in it.
pub proof fn lemma_one_in_group(sizes: Seq<u64>, ds: Seq<Option<Seq<char>>>, s: u64, d: Seq<char>, n: int, i: int)
    requires
        0 <= i < n,
        in_group(sizes, ds, i, s, d),
    ensures
        count_group(sizes, ds, s, d, n) >= 1,
    decreases n,
{
    if i != n - 1 {
        lemma_one_in_group(sizes, ds, s, d, n - 1, i);
    }
}

/// A group that counts two entries besides, possibly, `i` holds an entry other
/// than `i`.
proof fn lemma_other_in_group(sizes: Seq<u64>, ds: Seq<Option<Seq<char>>>, s: u64, d: Seq<char>, n: int, i: int)
    requires
        0 <= n,
        count_group(sizes, ds, s, d, n) >= 2,
    ensures
        exists|j: int| 0 <= j < n && j != i && in_group(sizes, ds, j, s, d),
    decreases n,
{
    if n > 0 {
        if in_group(sizes, ds, n - 1, s, d) && n - 1 != i {
            assert(in_group(sizes, ds, n - 1, s, d));
        } else if count_group(sizes, ds, s, d, n - 1) >= 2 {
            lemma_other_in_group(sizes, ds, s, d, n - 1, i);
        } else {
            lemma_count_holds(sizes, ds, s, d, n - 1);
            let j = choose|j: int| 0 <= j < n - 1 && in_group(sizes, ds, j, s, d);
            assert(j != i);
        }
    }
}

proof fn lemma_count_holds(sizes: Seq<u64>, ds: Seq<Option<Seq<char>>>, s: u64, d: Seq<char>, n: int)
    requires
        count_group(sizes, ds, s, d, n) >= 1,
    ensures
        exists|j: int| 0 <= j < n && in_group(sizes, ds, j, s, d),
    decreases n,
{
    if n > 0 && !in_group(sizes, ds, n - 1, s, d) {
        lemma_count_holds(sizes, ds, s, d, n - 1);
    }
}

/// An entry counted as a duplicate has a partner of the same size and the
/// same digest: every member of a group shares both.
pub proof fn lemma_duplicate_has_partner(sizes: Seq<u64>, ds: Seq<Option<Seq<char>>>, i: int)
    requires
        0 <= i < ds.len(),
        group_size(sizes, ds, i) >= 2,
    ensures
        exists|j: int| 0 <= j < ds.len() && j != i && sizes[j] == sizes[i] && ds[j] == ds[i],
{
    let d = ds[i]->Some_0;
    lemma_other_in_group(sizes, ds, sizes[i], d, ds.len() as int, i);
}

fn same_digest(a: &Option<String>, b: &String) -> (r: bool)
    ensures
        r == (match a {
            Some(s) => s@ == b@,
            None => false,
        }),
{
    match a {
        Some(s) => *s == *b,
        None => false,
    }
}

/// For each entry, the size of its duplicate group.
pub fn group_sizes(sizes: &Vec<u64>, ds: &Vec<Option<String>>) -> (r: Vec<usize>)
    requires
        sizes@.len() == ds@.len(),
    ensures
        r@.len() == ds@.len(),
        forall|i: int| 0 <= i < ds@.len() ==> r@[i] == group_size(sizes@, digests_view(ds@), i),
{
    let ghost dv = digests_view(ds@);
    let n = ds.len();
    let mut r: Vec<usize> = Vec::new();
    let mut i: usize = 0;
    while i < n
        invariant
            n == ds@.len(),
            n == sizes@.len(),
            dv == digests_view(ds@),
            i <= n,
            r@.len() == i,
            forall|k: int| 0 <= k < i ==> r@[k] == group_size(sizes@, dv, k),
        decreases n - i,
    {
        let mut count: usize = 0;
        match &ds[i] {
            Some(d) => {
                let mut j: usize = 0;
                while j < n
                    invariant
                        n == ds@.len(),
                        n == sizes@.len(),
                        dv == digests_view(ds@),
                        i < n,
                        j <= n,
                        count <= j,
                        count == count_group(sizes@, dv, sizes@[i as int], d@, j as int),
                    decreases n - j,
                {
                    if sizes[j] == sizes[i] && same_digest(&ds[j], d) {
                        count += 1;
                    }
                    j += 1;
                }
            },
            None => {},
        }
        r.push(count);
        i += 1;
    }
    r
}

/// What the hasher has been fed.
pub uninterp spec fn hasher_input(h: blake3::Hasher) -> Seq<u8>;

/// The lower-case hexadecimal BLAKE3 digest of some bytes.
pub uninterp spec fn blake3_hex(data: Seq<u8>) -> Seq<char>;

#[verifier::external_type_specification]
#[verifier::external_body]
pub struct ExHasher(blake3::Hasher);

/// Relies on `blake3::Hasher::new`: a fresh hasher has been fed nothing.
#[verifier::external_body]
fn hasher_new() -> (r: blake3::Hasher)
    ensures
        hasher_input(r) == Seq::<u8>::empty(),
{
    blake3::Hasher::new()
}

/// Relies on `blake3::Hasher::update`: the bytes are appended to what the
/// hasher has been fed.
#[verifier::external_body]
fn hasher_update(h: &mut blake3::Hasher, input: &[u8])
    ensures
        hasher_input(*final(h)) == hasher_input(*old(h)) + input@,
{
    h.update(input);
}

/// Relies on `blake3::Hasher::finalize`: the digest of everything fed, as
/// lower-case hexadecimal.
#[verifier::external_body]
fn hasher_finalize(h: &blake3::Hasher) -> (r: String)
    ensures
        r@ == blake3_hex(hasher_input(*h)),
{
    h.finalize().to_hex().to_string()
}

/// Accumulates the content of a file, a chunk at a time, into its digest;
/// memory use does not grow with the file.
pub struct ContentHasher {
    inner: blake3::Hasher,
}

impl ContentHasher {
    /// The bytes fed so far.
    pub closed spec fn view(&self) -> Seq<u8> {
        hasher_input(self.inner)
    }

    pub fn new() -> (r: ContentHasher)
        ensures
            r.view() == Seq::<u8>::empty(),
    {
        ContentHasher { inner: hasher_new() }
    }

    /// Feeds the next chunk.
    pub fn update(&mut self, chunk: &[u8])
        ensures
            final(self).view() == old(self).view() + chunk@,
    {
        hasher_update(&mut self.inner, chunk);
    }

    /// The digest of everything fed.
    pub fn finish(&self) -> (r: String)
        ensures
            r@ == blake3_hex(self.view()),
    {
        hasher_finalize(&self.inner)
    }
}

} // verus!
