//! Disk cache of thumbnails and waveform envelopes: where artifacts live,
//! how their keys are derived, and in which order old ones are pruned.
use vstd::prelude::*;
use vstd::string::*;
use crate::text::{has_suffix, join_path, path_join};

verus! {

/// Errors of the cache.
#[derive(Debug, PartialEq)]
pub enum CacheError {
    /// No cache directory is known for this user.
    DirectoryUnavailable,
    /// A file operation failed with the given system message.
    IoError(String),
}

/// Locations of the cache directories.
#[derive(Debug, Clone)]
pub struct DiskCacheManager {
    base_dir: String,
    thumbnails_dir: String,
    waveforms_dir: String,
}

/// The SHA-256 digest of `data`.
pub uninterp spec fn sha256_digest(data: Seq<u8>) -> Seq<u8>;

/// Trusted: calls `sha2::Sha256::digest` on `data` and copies the 32-byte
/// digest out. The contract names the result `sha256_digest(data)` and
/// claims only its length, which SHA-256 fixes.
#[verifier::external_body]
fn sha256(data: &[u8]) -> (r: Vec<u8>)
    ensures
        r@ == sha256_digest(data@),
        r@.len() == 32,
{
    <sha2::Sha256 as sha2::Digest>::digest(data).as_slice().to_vec()
}

/// The `n` low-order bytes of `x`, least significant first.
pub open spec fn le_bytes(x: nat, n: nat) -> Seq<u8>
    decreases n,
{
    if n == 0 {
        Seq::empty()
    } else {
        seq![(x % 256) as u8] + le_bytes(x / 256, (n - 1) as nat)
    }
}

/// Lower-case hexadecimal digit of `d` (0..=15).
pub open spec fn hex_digit(d: nat) -> char {
    if d < 10 {
        (('0' as u32) + d) as char
    } else {
        (('a' as u32) + d - 10) as char
    }
}

/// Lower-case hexadecimal rendering of bytes, two digits per byte.
pub open spec fn hex_lower(b: Seq<u8>) -> Seq<char>
    decreases b.len(),
{
    if b.len() == 0 {
        Seq::empty()
    } else {
        hex_lower(b.drop_last()) + seq![hex_digit((b.last() / 16) as nat), hex_digit((b.last() % 16) as nat)]
    }
}

/// The bytes hashed for a cache key: the path, the modification time and
/// the size (both little-endian), then the extra parameters.
pub open spec fn key_material(path: Seq<char>, modified_time: u64, file_size: u64, extra: Seq<char>) -> Seq<u8> {
    vstd::utf8::encode_utf8(path) + le_bytes(modified_time as nat, 8) + le_bytes(file_size as nat, 8)
        + vstd::utf8::encode_utf8(extra)
}

fn push_le_bytes(v: &mut Vec<u8>, x: u64)
    ensures
        final(v)@ == old(v)@ + le_bytes(x as nat, 8),
{
    let mut y = x;
    let mut i: usize = 0;
    while i < 8
        invariant
            i <= 8,
            v@ + le_bytes(y as nat, (8 - i) as nat) == old(v)@ + le_bytes(x as nat, 8),
        decreases 8 - i,
    {
        let ghost before = v@;
        v.push((y % 256) as u8);
        assert(le_bytes(y as nat, (8 - i) as nat) == seq![(y % 256) as u8] + le_bytes(
            (y / 256) as nat,
            (8 - i - 1) as nat,
        ));
        assert(v@ + le_bytes((y / 256) as nat, (8 - i - 1) as nat) =~= before + le_bytes(
            y as nat,
            (8 - i) as nat,
        ));
        y = y / 256;
        i = i + 1;
    }
    assert(le_bytes(y as nat, 0) =~= Seq::<u8>::empty());
    assert(v@ =~= old(v)@ + le_bytes(x as nat, 8));
}

fn push_bytes(v: &mut Vec<u8>, b: &[u8])
    ensures
        final(v)@ == old(v)@ + b@,
{
    let mut i: usize = 0;
    while i < b.len()
        invariant
            i <= b@.len(),
            v@ == old(v)@ + b@.take(i as int),
        decreases b@.len() - i,
    {
        v.push(b[i]);
        assert(b@.take(i + 1) =~= b@.take(i as int).push(b@[i as int]));
        assert(v@ =~= old(v)@ + b@.take(i + 1));
        i = i + 1;
    }
    assert(b@.take(i as int) =~= b@);
}

fn hex_str(d: u8) -> (r: &'static str)
    requires
        d < 16,
    ensures
        r@ == seq![hex_digit(d as nat)],
{
    proof {
        reveal_strlit("0");
        reveal_strlit("1");
        reveal_strlit("2");
        reveal_strlit("3");
        reveal_strlit("4");
        reveal_strlit("5");
        reveal_strlit("6");
        reveal_strlit("7");
        reveal_strlit("8");
        reveal_strlit("9");
        reveal_strlit("a");
        reveal_strlit("b");
        reveal_strlit("c");
        reveal_strlit("d");
        reveal_strlit("e");
        reveal_strlit("f");
    }
    if d == 0 {
        "0"
    } else if d == 1 {
        "1"
    } else if d == 2 {
        "2"
    } else if d == 3 {
        "3"
    } else if d == 4 {
        "4"
    } else if d == 5 {
        "5"
    } else if d == 6 {
        "6"
    } else if d == 7 {
        "7"
    } else if d == 8 {
        "8"
    } else if d == 9 {
        "9"
    } else if d == 10 {
        "a"
    } else if d == 11 {
        "b"
    } else if d == 12 {
        "c"
    } else if d == 13 {
        "d"
    } else if d == 14 {
        "e"
    } else {
        "f"
    }
}

fn to_hex_lower(b: &Vec<u8>) -> (r: String)
    ensures
        r@ == hex_lower(b@),
{
    let mut s = String::new();
    let mut i: usize = 0;
    assert(b@.take(0) =~= Seq::<u8>::empty());
    while i < b.len()
        invariant
            i <= b@.len(),
            s@ == hex_lower(b@.take(i as int)),
        decreases b@.len() - i,
    {
        let x = b[i];
        s.append(hex_str(x / 16));
        s.append(hex_str(x % 16));
        assert(b@.take(i + 1).drop_last() =~= b@.take(i as int));
        assert(s@ =~= hex_lower(b@.take(i + 1)));
        i = i + 1;
    }
    assert(b@.take(i as int) =~= b@);
    s
}

/// File name of the cache artifact with key `key`.
pub open spec fn artifact_name(key: Seq<char>) -> Seq<char> {
    key + ".bin"@
}

impl DiskCacheManager {
    /// The size the cache is pruned back to after each store: 500 MiB.
    pub const DEFAULT_MAX_CACHE_BYTES: u64 = 524288000;

    pub closed spec fn spec_base_dir(&self) -> Seq<char> {
        self.base_dir@
    }

    pub closed spec fn spec_thumbnails_dir(&self) -> Seq<char> {
        self.thumbnails_dir@
    }

    pub closed spec fn spec_waveforms_dir(&self) -> Seq<char> {
        self.waveforms_dir@
    }

    /// The cache layout under `base_dir`: thumbnails in `thumbnails/` and
    /// waveforms in `waveforms/`. Creating the directories is up to the caller.
    pub fn with_layout(base_dir: &str) -> (r: DiskCacheManager)
        ensures
            r.spec_base_dir() == base_dir@,
            r.spec_thumbnails_dir() == path_join(base_dir@, "thumbnails"@),
            r.spec_waveforms_dir() == path_join(base_dir@, "waveforms"@),
    {
        DiskCacheManager {
            base_dir: String::from_str(base_dir),
            thumbnails_dir: join_path(base_dir, "thumbnails"),
            waveforms_dir: join_path(base_dir, "waveforms"),
        }
    }

    /// The cache layout under the directory `dir`, or `DirectoryUnavailable`
    /// when no directory is known.
    pub fn layout_in(dir: Option<String>) -> (r: Result<DiskCacheManager, CacheError>)
        ensures
            dir is None ==> r == Err::<DiskCacheManager, CacheError>(CacheError::DirectoryUnavailable),
            dir matches Some(d) ==> (r matches Ok(m) && m.spec_base_dir() == d@
                && m.spec_thumbnails_dir() == path_join(d@, "thumbnails"@)
                && m.spec_waveforms_dir() == path_join(d@, "waveforms"@)),
    {
        match dir {
            None => Err(CacheError::DirectoryUnavailable),
            Some(d) => Ok(DiskCacheManager::with_layout(d.as_str())),
        }
    }

    /// The cache layout under the editor's per-user cache directory (see
    /// `dirs::cache_dir_for` with `dirs::app_identity`), which ends with
    /// "fluxcut"; `DirectoryUnavailable` when the platform knows none.
    pub fn default_layout() -> (r: Result<DiskCacheManager, CacheError>)
        ensures
            r is Err ==> r == Err::<DiskCacheManager, CacheError>(CacheError::DirectoryUnavailable),
            r matches Ok(m) ==> m.spec_thumbnails_dir() == path_join(m.spec_base_dir(), "thumbnails"@)
                && m.spec_waveforms_dir() == path_join(m.spec_base_dir(), "waveforms"@)
                && has_suffix(m.spec_base_dir(), "fluxcut"@),
    {
        DiskCacheManager::layout_in(crate::dirs::user_cache_dir())
    }

    /// The base cache directory.
    pub fn base_dir(&self) -> (r: &str)
        ensures
            r@ == self.spec_base_dir(),
    {
        self.base_dir.as_str()
    }

    /// The thumbnails directory.
    pub fn thumbnails_dir(&self) -> (r: &str)
        ensures
            r@ == self.spec_thumbnails_dir(),
    {
        self.thumbnails_dir.as_str()
    }

    /// The waveforms directory.
    pub fn waveforms_dir(&self) -> (r: &str)
        ensures
            r@ == self.spec_waveforms_dir(),
    {
        self.waveforms_dir.as_str()
    }

    /// File of the cached thumbnail with key `key`.
    pub fn thumbnail_path(&self, key: &str) -> (r: String)
        ensures
            r@ == path_join(self.spec_thumbnails_dir(), artifact_name(key@)),
    {
        let mut name = String::from_str(key);
        name.append(".bin");
        join_path(self.thumbnails_dir.as_str(), name.as_str())
    }

    /// File of the cached waveform with key `key`.
    pub fn waveform_path(&self, key: &str) -> (r: String)
        ensures
            r@ == path_join(self.spec_waveforms_dir(), artifact_name(key@)),
    {
        let mut name = String::from_str(key);
        name.append(".bin");
        join_path(self.waveforms_dir.as_str(), name.as_str())
    }

    /// Deterministic cache key: the lower-case hex SHA-256 of the file path,
    /// its modification time, its size and the extra parameters.
    pub fn generate_key(path: &str, modified_time: u64, file_size: u64, extra: &str) -> (r: String)
        ensures
            r@ == hex_lower(sha256_digest(key_material(path@, modified_time, file_size, extra@))),
            r@.len() == 64,
    {
        let mut data: Vec<u8> = Vec::new();
        push_bytes(&mut data, path.as_bytes());
        push_le_bytes(&mut data, modified_time);
        push_le_bytes(&mut data, file_size);
        push_bytes(&mut data, extra.as_bytes());
        assert(data@ =~= key_material(path@, modified_time, file_size, extra@));
        let digest = sha256(data.as_slice());
        let r = to_hex_lower(&digest);
        proof {
            lemma_hex_len(digest@);
        }
        r
    }
}

proof fn lemma_hex_len(b: Seq<u8>)
    ensures
        hex_lower(b).len() == 2 * b.len(),
    decreases b.len(),
{
    if b.len() > 0 {
        lemma_hex_len(b.drop_last());
    }
}

/// Indices `0..keys.len()` ordered by key, equal keys keeping their order.
pub open spec fn order_by_key(keys: Seq<u128>, n: nat) -> Seq<usize>
    decreases n,
{
    if n == 0 {
        Seq::empty()
    } else {
        insert_index(order_by_key(keys, (n - 1) as nat), keys, (n - 1) as usize)
    }
}

/// Insert index `x` after every trailing index whose key is not greater.
pub open spec fn insert_index(s: Seq<usize>, keys: Seq<u128>, x: usize) -> Seq<usize>
    decreases s.len(),
{
    if s.len() == 0 {
        seq![x]
    } else if keys[s.last() as int] <= keys[x as int] {
        s.push(x)
    } else {
        insert_index(s.drop_last(), keys, x).push(s.last())
    }
}

proof fn lemma_insert_index_at(s: Seq<usize>, keys: Seq<u128>, x: usize, p: int)
    requires
        0 <= p <= s.len(),
        forall|j: int| p <= j < s.len() ==> keys[#[trigger] s[j] as int] > keys[x as int],
        p == 0 || keys[s[p - 1] as int] <= keys[x as int],
    ensures
        insert_index(s, keys, x) == s.insert(p, x),
    decreases s.len(),
{
    if s.len() == 0 {
        assert(s.insert(p, x) =~= seq![x]);
    } else if keys[s.last() as int] <= keys[x as int] {
        assert(p == s.len());
        assert(s.insert(p, x) =~= s.push(x));
    } else {
        lemma_insert_index_at(s.drop_last(), keys, x, p);
        assert(s.insert(p, x) =~= s.drop_last().insert(p, x).push(s.last()));
    }
}

proof fn lemma_order_in_bounds(keys: Seq<u128>, n: nat)
    ensures
        order_by_key(keys, n).len() == n,
        forall|j: int| 0 <= j < n ==> (#[trigger] order_by_key(keys, n)[j]) < n,
    decreases n,
{
    if n > 0 {
        lemma_order_in_bounds(keys, (n - 1) as nat);
        lemma_insert_index_bounds(order_by_key(keys, (n - 1) as nat), keys, (n - 1) as usize, n);
    }
}

proof fn lemma_insert_index_bounds(s: Seq<usize>, keys: Seq<u128>, x: usize, n: nat)
    requires
        x < n,
        forall|j: int| 0 <= j < s.len() ==> (#[trigger] s[j]) < n,
    ensures
        insert_index(s, keys, x).len() == s.len() + 1,
        forall|j: int| 0 <= j < s.len() + 1 ==> (#[trigger] insert_index(s, keys, x)[j]) < n,
    decreases s.len(),
{
    if s.len() > 0 && !(keys[s.last() as int] <= keys[x as int]) {
        lemma_insert_index_bounds(s.drop_last(), keys, x, n);
    }
}

/// Indices ordered by key: no index comes before one with a smaller key.
pub open spec fn ordered_by_key(s: Seq<usize>, keys: Seq<u128>) -> bool {
    forall|i: int, j: int| 0 <= i < j < s.len() ==> keys[#[trigger] s[i] as int] <= keys[#[trigger] s[j] as int]
}

proof fn lemma_insert_index_bounded(s: Seq<usize>, keys: Seq<u128>, x: usize, y: u128)
    requires
        forall|j: int| 0 <= j < s.len() ==> keys[#[trigger] s[j] as int] <= y,
        keys[x as int] <= y,
    ensures
        forall|j: int|
            0 <= j < insert_index(s, keys, x).len() ==> keys[#[trigger] insert_index(s, keys, x)[j] as int]
                <= y,
    decreases s.len(),
{
    let r = insert_index(s, keys, x);
    if s.len() == 0 {
        assert(r[0] == x);
    } else if keys[s.last() as int] <= keys[x as int] {
        assert forall|j: int| 0 <= j < r.len() implies keys[#[trigger] r[j] as int] <= y by {
            if j < s.len() {
                assert(r[j] == s[j]);
            }
        }
    } else {
        let d = s.drop_last();
        assert forall|j: int| 0 <= j < d.len() implies keys[#[trigger] d[j] as int] <= y by {
            assert(d[j] == s[j]);
        }
        lemma_insert_index_bounded(d, keys, x, y);
        let m = insert_index(d, keys, x);
        assert forall|j: int| 0 <= j < r.len() implies keys[#[trigger] r[j] as int] <= y by {
            if j < m.len() {
                assert(r[j] == m[j]);
            } else {
                assert(r[j] == s[s.len() - 1]);
            }
        }
    }
}

proof fn lemma_insert_index_ordered(s: Seq<usize>, keys: Seq<u128>, x: usize)
    requires
        ordered_by_key(s, keys),
    ensures
        ordered_by_key(insert_index(s, keys, x), keys),
        insert_index(s, keys, x).to_multiset() == s.to_multiset().insert(x),
    decreases s.len(),
{
    broadcast use vstd::seq_lib::group_to_multiset_ensures;
    broadcast use vstd::multiset::group_multiset_axioms;

    if s.len() == 0 {
        assert(seq![x] =~= Seq::<usize>::empty().push(x));
        assert(Seq::<usize>::empty().to_multiset() =~= s.to_multiset());
    } else if keys[s.last() as int] <= keys[x as int] {
        let r = s.push(x);
        assert forall|i: int, j: int| 0 <= i < j < r.len() implies keys[#[trigger] r[i] as int]
            <= keys[#[trigger] r[j] as int] by {
            if j < s.len() {
                assert(r[i] == s[i] && r[j] == s[j]);
            } else if i < s.len() - 1 {
                assert(keys[s[i] as int] <= keys[s[s.len() - 1] as int]);
            }
        }
    } else {
        let d = s.drop_last();
        let l = s.last();
        assert(ordered_by_key(d, keys)) by {
            assert forall|i: int, j: int| 0 <= i < j < d.len() implies keys[#[trigger] d[i] as int]
                <= keys[#[trigger] d[j] as int] by {
                assert(d[i] == s[i] && d[j] == s[j]);
            }
        }
        lemma_insert_index_ordered(d, keys, x);
        assert forall|j: int| 0 <= j < d.len() implies keys[#[trigger] d[j] as int] <= keys[l as int] by {
            assert(d[j] == s[j]);
            assert(keys[s[j] as int] <= keys[s[s.len() - 1] as int]);
        }
        lemma_insert_index_bounded(d, keys, x, keys[l as int]);
        let m = insert_index(d, keys, x);
        let r = m.push(l);
        assert forall|i: int, j: int| 0 <= i < j < r.len() implies keys[#[trigger] r[i] as int]
            <= keys[#[trigger] r[j] as int] by {
            if j < m.len() {
                assert(r[i] == m[i] && r[j] == m[j]);
            } else {
                assert(r[i] == m[i]);
            }
        }
        assert(s =~= d.push(l));
        assert(r.to_multiset() =~= s.to_multiset().insert(x));
    }
}

/// The pruning order lists every file exactly once, oldest first.
pub proof fn lemma_pruning_order(keys: Seq<u128>, n: nat)
    ensures
        ordered_by_key(order_by_key(keys, n), keys),
        order_by_key(keys, n).to_multiset() == Seq::new(n, |i: int| i as usize).to_multiset(),
    decreases n,
{
    broadcast use vstd::seq_lib::group_to_multiset_ensures;

    if n > 0 {
        lemma_pruning_order(keys, (n - 1) as nat);
        lemma_insert_index_ordered(order_by_key(keys, (n - 1) as nat), keys, (n - 1) as usize);
        assert(Seq::new(n, |i: int| i as usize) =~= Seq::new((n - 1) as nat, |i: int| i as usize).push(
            (n - 1) as usize,
        ));
    }
}

/// The order in which cache files are pruned: oldest modification first;
/// files modified at the same instant keep their listing order.
pub fn pruning_order(modified: &Vec<u128>) -> (r: Vec<usize>)
    ensures
        r@ == order_by_key(modified@, modified@.len()),
{
    let n = modified.len();
    let mut out: Vec<usize> = Vec::new();
    let mut i: usize = 0;
    while i < n
        invariant
            n == modified@.len(),
            i <= n,
            out@ == order_by_key(modified@, i as nat),
        decreases n - i,
    {
        proof {
            lemma_order_in_bounds(modified@, i as nat);
        }
        let mut p: usize = out.len();
        while p > 0 && modified[out[p - 1]] > modified[i]
            invariant
                p <= out@.len(),
                i < n,
                n == modified@.len(),
                out@.len() == i,
                forall|j: int| 0 <= j < out@.len() ==> (#[trigger] out@[j]) < n,
                forall|j: int|
                    p <= j < out@.len() ==> modified@[#[trigger] out@[j] as int] > modified@[i as int],
            decreases p,
        {
            p = p - 1;
        }
        proof {
            lemma_insert_index_at(out@, modified@, i, p as int);
        }
        out.insert(p, i);
        i = i + 1;
    }
    out
}


/// Sum of the first `n` sizes.
pub open spec fn sum_sizes(sizes: Seq<u64>, n: nat) -> int
    decreases n,
{
    if n == 0 {
        0
    } else {
        sum_sizes(sizes, (n - 1) as nat) + sizes[n - 1]
    }
}

/// Sum of the sizes of the first `n` files of `order`.
pub open spec fn sum_in_order(order: Seq<usize>, sizes: Seq<u64>, n: nat) -> int
    decreases n,
{
    if n == 0 {
        0
    } else {
        sum_in_order(order, sizes, (n - 1) as nat) + sizes[order[n - 1] as int]
    }
}

/// Bytes freed after the first `n` files of `order` were considered, when
/// the removal of the `k`-th file succeeds exactly when `ok[k]`: a file is
/// only removed while the cache still holds more than `max` of its `total`
/// bytes.
pub open spec fn prune_fold(
    order: Seq<usize>,
    sizes: Seq<u64>,
    total: int,
    max: int,
    ok: Seq<bool>,
    n: nat,
) -> int
    decreases n,
{
    if n == 0 {
        0
    } else {
        let f = prune_fold(order, sizes, total, max, ok, (n - 1) as nat);
        if total <= f + max {
            f
        } else if ok[n - 1] {
            f + sizes[order[n - 1] as int]
        } else {
            f
        }
    }
}

/// Whether the `k`-th file of `order` is still considered for removal:
/// the cache holds more than `max` of its `total` bytes after the removals
/// recorded before it.
pub open spec fn considered(
    order: Seq<usize>,
    sizes: Seq<u64>,
    total: int,
    max: int,
    ok: Seq<bool>,
    k: nat,
) -> bool {
    total > prune_fold(order, sizes, total, max, ok, k) + max
}

/// The record `ok` agrees with the removals `remove` performed: a file is
/// handed to `remove` exactly when it is considered, `ok[k]` is what
/// `remove` answered for the `k`-th file of `order`, and a file not
/// considered is not removed.
pub open spec fn outcomes_of<F: Fn(usize) -> bool>(
    remove: F,
    order: Seq<usize>,
    sizes: Seq<u64>,
    total: int,
    max: int,
    ok: Seq<bool>,
) -> bool {
    forall|k: int|
        0 <= k < ok.len() ==> if considered(order, sizes, total, max, ok, k as nat) {
            call_ensures(remove, (order[k],), #[trigger] ok[k])
        } else {
            !ok[k]
        }
}

/// When every removal that is attempted succeeds, pruning stops as soon as
/// the cache fits its budget, and otherwise removes every file it
/// considered.
pub proof fn lemma_pruning_meets_budget(
    order: Seq<usize>,
    sizes: Seq<u64>,
    total: int,
    max: int,
    ok: Seq<bool>,
    n: nat,
)
    requires
        n <= ok.len(),
        forall|k: int|
            0 <= k < n && considered(order, sizes, total, max, ok, k as nat) ==> #[trigger] ok[k],
    ensures
        total <= prune_fold(order, sizes, total, max, ok, n) + max || prune_fold(
            order,
            sizes,
            total,
            max,
            ok,
            n,
        ) == sum_in_order(order, sizes, n),
    decreases n,
{
    if n > 0 {
        lemma_pruning_meets_budget(order, sizes, total, max, ok, (n - 1) as nat);
        if considered(order, sizes, total, max, ok, (n - 1) as nat) {
            assert(ok[n - 1]);
        }
    }
}

/// When every removal succeeds, pruning in the order `order` either leaves
/// the cache within its budget or removes every file of the order.
pub proof fn lemma_pruning_law<F: Fn(usize) -> bool>(
    remove: F,
    order: Seq<usize>,
    sizes: Seq<u64>,
    total: int,
    max: int,
    ok: Seq<bool>,
)
    requires
        outcomes_of(remove, order, sizes, total, max, ok),
        forall|i: usize, b: bool| call_ensures(remove, (i,), b) ==> b,
    ensures
        total <= prune_fold(order, sizes, total, max, ok, ok.len()) + max || prune_fold(
            order,
            sizes,
            total,
            max,
            ok,
            ok.len(),
        ) == sum_in_order(order, sizes, ok.len()),
{
    assert forall|k: int|
        0 <= k < ok.len() && considered(order, sizes, total, max, ok, k as nat) implies #[trigger] ok[k] by {
        assert(call_ensures(remove, (order[k],), ok[k]));
    }
    lemma_pruning_meets_budget(order, sizes, total, max, ok, ok.len());
}

/// Remove cache files, oldest first, until at most `max_bytes` of the
/// `sizes` stay; `remove(i)` removes file `i` and tells whether it
/// succeeded. Returns the bytes freed, as `prune_fold` counts them for the
/// record `ok` of what `remove` answered for the files it was handed (see
/// `outcomes_of`), in the pruning order of `modified`.
pub fn prune_to_budget<F: Fn(usize) -> bool>(
    sizes: &Vec<u64>,
    modified: &Vec<u128>,
    max_bytes: u64,
    remove: F,
) -> (r: u128)
    requires
        sizes@.len() == modified@.len(),
        forall|i: usize| call_requires(remove, (i,)),
    ensures
        exists|ok: Seq<bool>|
            #![trigger prune_fold(
                order_by_key(modified@, modified@.len()),
                sizes@,
                sum_sizes(sizes@, sizes@.len()),
                max_bytes as int,
                ok,
                sizes@.len(),
            )]
            ok.len() == sizes@.len() && r == prune_fold(
                order_by_key(modified@, modified@.len()),
                sizes@,
                sum_sizes(sizes@, sizes@.len()),
                max_bytes as int,
                ok,
                sizes@.len(),
            ) && outcomes_of(
                remove,
                order_by_key(modified@, modified@.len()),
                sizes@,
                sum_sizes(sizes@, sizes@.len()),
                max_bytes as int,
                ok,
            ),
{
    let n = sizes.len();
    let mut total: u128 = 0;
    let mut i: usize = 0;
    while i < n
        invariant
            n == sizes@.len(),
            i <= n,
            total == sum_sizes(sizes@, i as nat),
            total <= i * 0xffff_ffff_ffff_ffffu128,
        decreases n - i,
    {
        proof {
            assert((i + 1) * 0xffff_ffff_ffff_ffffu128 == i * 0xffff_ffff_ffff_ffffu128
                + 0xffff_ffff_ffff_ffffu128) by (nonlinear_arith);
            assert(i * 0xffff_ffff_ffff_ffffu128 <= 0xffff_ffff_ffff_ffffu128 * 0xffff_ffff_ffff_ffffu128)
                by (nonlinear_arith)
                requires
                    i <= 0xffff_ffff_ffff_ffffu64,
            ;
        }
        total = total + sizes[i] as u128;
        i = i + 1;
    }
    let order = pruning_order(modified);
    proof {
        lemma_order_in_bounds(modified@, n as nat);
    }
    let ghost keys = order@;
    let ghost mut ok: Seq<bool> = Seq::empty();
    let mut freed: u128 = 0;
    let mut k: usize = 0;
    while k < n
        invariant
            n == sizes@.len(),
            n == modified@.len(),
            order@ == order_by_key(modified@, n as nat),
            order@.len() == n,
            forall|j: int| 0 <= j < n ==> (#[trigger] order@[j]) < n,
            forall|i: usize| call_requires(remove, (i,)),
            k <= n,
            ok.len() == k,
            total == sum_sizes(sizes@, n as nat),
            freed == prune_fold(order@, sizes@, total as int, max_bytes as int, ok, k as nat),
            outcomes_of(remove, order@, sizes@, total as int, max_bytes as int, ok),
            freed <= k * 0xffff_ffff_ffff_ffffu128,
        decreases n - k,
    {
        let index = order[k];
        let ghost before = ok;
        proof {
            assert((k + 1) * 0xffff_ffff_ffff_ffffu128 == k * 0xffff_ffff_ffff_ffffu128
                + 0xffff_ffff_ffff_ffffu128) by (nonlinear_arith);
            assert(k * 0xffff_ffff_ffff_ffffu128 <= 0xffff_ffff_ffff_ffffu128 * 0xffff_ffff_ffff_ffffu128)
                by (nonlinear_arith)
                requires
                    k <= 0xffff_ffff_ffff_ffffu64,
            ;
        }
        if total > freed + max_bytes as u128 {
            let removed = remove(index);
            if removed {
                freed = freed + sizes[index] as u128;
            }
            proof {
                ok = ok.push(removed);
            }
        } else {
            proof {
                ok = ok.push(false);
            }
        }
        proof {
            assert(ok.subrange(0, k as int) =~= before);
            lemma_fold_prefix(order@, sizes@, total as int, max_bytes as int, before, ok, k as nat);
            assert forall|j: int|
                0 <= j < ok.len() implies if considered(
                    order@,
                    sizes@,
                    total as int,
                    max_bytes as int,
                    ok,
                    j as nat,
                ) {
                    call_ensures(remove, (order@[j],), #[trigger] ok[j])
                } else {
                    !ok[j]
                } by {
                lemma_fold_prefix(order@, sizes@, total as int, max_bytes as int, before, ok, j as nat);
                if j < k {
                    assert(before[j] == ok[j]);
                }
            }
        }
        k = k + 1;
    }
    freed
}

/// `prune_fold` only reads the first `n` outcomes.
proof fn lemma_fold_prefix(
    order: Seq<usize>,
    sizes: Seq<u64>,
    total: int,
    max: int,
    a: Seq<bool>,
    b: Seq<bool>,
    n: nat,
)
    requires
        n <= a.len(),
        n <= b.len(),
        forall|k: int| 0 <= k < n ==> a[k] == b[k],
    ensures
        prune_fold(order, sizes, total, max, a, n) == prune_fold(order, sizes, total, max, b, n),
    decreases n,
{
    if n > 0 {
        lemma_fold_prefix(order, sizes, total, max, a, b, (n - 1) as nat);
    }
}

} // verus!
