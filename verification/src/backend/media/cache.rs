//! The cache of downloaded album art: file names, and which files to drop.

use crate::sort;
use crate::sort::{stable_sort, Ranked};
use crate::text::{chars_of, concat};
use vstd::prelude::*;
use vstd::string::*;

verus! {

/// The cache is kept within this many bytes.
pub const ART_CACHE_MAX_BYTES: u64 = 50 * 1024 * 1024;

/// The FNV-1a hash of bytes.
pub open spec fn hashed(bytes: Seq<u8>) -> u64
    decreases bytes.len(),
{
    if bytes.len() == 0 {
        0xcbf2_9ce4_8422_2325
    } else {
        (hashed(bytes.drop_last()) ^ (bytes.last() as u64)).wrapping_mul(0x100_0000_01b3)
    }
}

/// The hexadecimal digit for a number below 16.
pub open spec fn hex_digit(d: u64) -> char {
    if d < 10 {
        (('0' as u64) + d) as char
    } else {
        (('a' as u64) + d - 10) as char
    }
}

/// The sixteen hexadecimal digits of a number.
pub open spec fn hex(n: u64) -> Seq<char> {
    Seq::new(16, |i: int| hex_digit((n >> ((60 - 4 * i) as u64)) & 0xf))
}

fn digit(d: u64) -> (c: char)
    requires
        d < 16,
    ensures
        c == hex_digit(d),
{
    if d < 10 {
        (48u8 + d as u8) as char
    } else {
        (97u8 + (d as u8 - 10u8)) as char
    }
}

/// A stable name for the file that caches what a web address holds: the
/// hexadecimal FNV-1a hash of the address. It need not keep addresses secret.
pub fn hash_url(url: &str) -> (name: String)
    ensures
        name@ == hex(hashed(vstd::utf8::encode_utf8(url@))),
{
    let bytes: &[u8] = url.as_bytes();
    let mut hash: u64 = 0xcbf2_9ce4_8422_2325;
    let mut i: usize = 0;
    assert(bytes@.take(0) =~= Seq::empty());
    while i < bytes.len()
        invariant
            i <= bytes.len(),
            hash == hashed(bytes@.take(i as int)),
        decreases bytes.len() - i,
    {
        assert(bytes@.take(i + 1).drop_last() =~= bytes@.take(i as int));
        hash = hash ^ (bytes[i] as u64);
        hash = hash.wrapping_mul(0x100_0000_01b3);
        i = i + 1;
    }
    assert(bytes@.take(bytes@.len() as int) =~= bytes@);
    let mut name: String = String::new();
    let mut k: u64 = 0;
    while k < 16
        invariant
            k <= 16,
            name@ =~= hex(hash).take(k as int),
        decreases 16 - k,
    {
        let shift: u64 = 60 - 4 * k;
        let d: u64 = (hash >> shift) & 0xf;
        assert((hash >> shift) & 0xf < 16) by (bit_vector);
        name.push(digit(d));
        assert(hex(hash)[k as int] == hex_digit(d));
        k = k + 1;
    }
    assert(hex(hash).take(16) =~= hex(hash));
    name
}

/// Different numbers are written differently.
pub proof fn hex_tells_apart(a: u64, b: u64)
    requires
        hex(a) == hex(b),
    ensures
        a == b,
{
    assert forall|i: int| 0 <= i < 16 implies (a >> (#[trigger] shift_of(i))) & 0xf == (b
        >> shift_of(i)) & 0xf by {
        let s = shift_of(i);
        assert((a >> s) & 0xf < 16) by (bit_vector);
        assert((b >> s) & 0xf < 16) by (bit_vector);
        assert(hex(a)[i] == hex_digit((a >> s) & 0xf));
        assert(hex(b)[i] == hex_digit((b >> s) & 0xf));
    }
    assert(shift_of(0) == 60 && shift_of(1) == 56 && shift_of(2) == 52 && shift_of(3) == 48);
    assert(shift_of(4) == 44 && shift_of(5) == 40 && shift_of(6) == 36 && shift_of(7) == 32);
    assert(shift_of(8) == 28 && shift_of(9) == 24 && shift_of(10) == 20 && shift_of(11) == 16);
    assert(shift_of(12) == 12 && shift_of(13) == 8 && shift_of(14) == 4 && shift_of(15) == 0);
    assert(a == b) by (bit_vector)
        requires
            (a >> 60u64) & 0xf == (b >> 60u64) & 0xf,
            (a >> 56u64) & 0xf == (b >> 56u64) & 0xf,
            (a >> 52u64) & 0xf == (b >> 52u64) & 0xf,
            (a >> 48u64) & 0xf == (b >> 48u64) & 0xf,
            (a >> 44u64) & 0xf == (b >> 44u64) & 0xf,
            (a >> 40u64) & 0xf == (b >> 40u64) & 0xf,
            (a >> 36u64) & 0xf == (b >> 36u64) & 0xf,
            (a >> 32u64) & 0xf == (b >> 32u64) & 0xf,
            (a >> 28u64) & 0xf == (b >> 28u64) & 0xf,
            (a >> 24u64) & 0xf == (b >> 24u64) & 0xf,
            (a >> 20u64) & 0xf == (b >> 20u64) & 0xf,
            (a >> 16u64) & 0xf == (b >> 16u64) & 0xf,
            (a >> 12u64) & 0xf == (b >> 12u64) & 0xf,
            (a >> 8u64) & 0xf == (b >> 8u64) & 0xf,
            (a >> 4u64) & 0xf == (b >> 4u64) & 0xf,
            (a >> 0u64) & 0xf == (b >> 0u64) & 0xf,
    ;
}

spec fn shift_of(i: int) -> u64 {
    (60 - 4 * i) as u64
}

/// A path followed by a relative path.
pub open spec fn joined(base: Seq<char>, part: Seq<char>) -> Seq<char> {
    if base.len() > 0 && base.last() != '/' {
        base.push('/') + part
    } else {
        base + part
    }
}

fn join(base: &str, part: &str) -> (path: String)
    ensures
        path@ == joined(base@, part@),
{
    let head: Vec<char> = chars_of(base);
    if head.len() > 0 && head[head.len() - 1] != '/' {
        let mut start: String = base.to_owned();
        start.push('/');
        concat(&start, part)
    } else {
        concat(base, part)
    }
}

/// The directory that caches album art: below the cache directory of the
/// environment, or else below that of the home directory.
pub open spec fn cache_dir(xdg_cache_home: Option<Seq<char>>, home: Option<Seq<char>>) -> Option<
    Seq<char>,
> {
    match xdg_cache_home {
        Some(base) => Some(joined(joined(base, "cosmic-ext-workspaces-bar"@), "art"@)),
        None => match home {
            Some(base) => Some(
                joined(joined(joined(base, ".cache"@), "cosmic-ext-workspaces-bar"@), "art"@),
            ),
            None => None,
        },
    }
}

/// The view of a text that may be missing.
pub open spec fn seen(t: Option<&str>) -> Option<Seq<char>> {
    match t {
        Some(s) => Some(s@),
        None => None,
    }
}

/// The directory that caches album art.
pub fn art_cache_dir(xdg_cache_home: Option<&str>, home: Option<&str>) -> (dir: Option<String>)
    ensures
        match dir {
            Some(d) => cache_dir(seen(xdg_cache_home), seen(home)) == Some(d@),
            None => cache_dir(seen(xdg_cache_home), seen(home)) is None,
        },
{
    let base: String = match xdg_cache_home {
        Some(v) => v.to_owned(),
        None => match home {
            Some(h) => join(h, ".cache"),
            None => {
                return None;
            },
        },
    };
    Some(join(&join(&base, "cosmic-ext-workspaces-bar"), "art"))
}

/// The file that caches what a web address holds: it is named by the hash of the
/// address.
pub open spec fn cached_at(dir: Seq<char>, url: Seq<char>) -> Seq<char> {
    joined(dir, hex(hashed(vstd::utf8::encode_utf8(url))))
}

/// The file that caches what a web address holds.
pub fn art_cache_path(dir: &str, url: &str) -> (path: String)
    ensures
        path@ == cached_at(dir@, url@),
{
    join(dir, &hash_url(url))
}

/// What a cache file holds is used unless it is empty.
pub fn cache_hit(cached: Option<Vec<u8>>) -> (res: Option<Vec<u8>>)
    ensures
        res == (match cached {
            Some(bytes) => if bytes@.len() > 0 {
                Some(bytes)
            } else {
                None
            },
            None => None,
        }),
{
    match cached {
        Some(bytes) => if bytes.len() > 0 {
            Some(bytes)
        } else {
            None
        },
        None => None,
    }
}

/// A file of the cache.
pub struct CacheFile {
    pub path: String,
    pub size: u64,
    /// When it was last written: nanoseconds since the epoch.
    pub modified: i128,
}

impl Ranked for CacheFile {
    open spec fn under(self, other: CacheFile) -> bool {
        self.modified < other.modified
    }

    proof fn one_way(a: CacheFile, b: CacheFile) {
    }

    proof fn chain(a: CacheFile, b: CacheFile, c: CacheFile) {
    }

    fn ranks_under(&self, other: &CacheFile) -> (res: bool) {
        self.modified < other.modified
    }
}

/// The size of all files together.
pub open spec fn total_size(files: Seq<CacheFile>) -> int
    decreases files.len(),
{
    if files.len() == 0 {
        0
    } else {
        total_size(files.drop_last()) + files.last().size
    }
}

/// The size of all files together, as the sum of 64-bit numbers gives it.
pub open spec fn counted_size(files: Seq<CacheFile>) -> u64
    decreases files.len(),
{
    if files.len() == 0 {
        0
    } else {
        counted_size(files.drop_last()).wrapping_add(files.last().size)
    }
}

/// What is left of `over` after `size` bytes went.
pub open spec fn less(over: u64, size: u64) -> u64 {
    if over > size {
        (over - size) as u64
    } else {
        0
    }
}

/// The removal of files from a cache that has grown too large, oldest first.
pub struct Pruner {
    pub files: Vec<CacheFile>,
    pub next: usize,
    /// The bytes by which the cache is still too large.
    pub over: u64,
}

/// Begin to remove files, if the cache has grown too large.
pub fn prune_art_cache(files: Vec<CacheFile>) -> (res: Option<Pruner>)
    ensures
        res is Some == (counted_size(files@) > ART_CACHE_MAX_BYTES),
        res matches Some(p) ==> {
            &&& sort::stably_sorted(files@, p.files@)
            &&& p.next == 0
            &&& p.over == counted_size(files@) - ART_CACHE_MAX_BYTES
        },
{
    let mut total: u64 = 0;
    let mut i: usize = 0;
    assert(files@.take(0) =~= Seq::empty());
    while i < files.len()
        invariant
            i <= files.len(),
            total == counted_size(files@.take(i as int)),
        decreases files.len() - i,
    {
        assert(files@.take(i + 1).drop_last() =~= files@.take(i as int));
        total = total.wrapping_add(files[i].size);
        i = i + 1;
    }
    assert(files@.take(files@.len() as int) =~= files@);
    if total <= ART_CACHE_MAX_BYTES {
        return None;
    }
    let sorted: Vec<CacheFile> = stable_sort(files);
    Some(Pruner { files: sorted, next: 0, over: total - ART_CACHE_MAX_BYTES })
}

impl Pruner {
    /// The place of the file to remove next: there is none if enough has gone,
    /// or all.
    pub open spec fn next_victim(self) -> Option<usize> {
        if self.over == 0 || self.next >= self.files@.len() {
            None
        } else {
            Some(self.next)
        }
    }

    /// The next file was removed, or could not be.
    pub open spec fn after(self, done: bool) -> Pruner {
        Pruner {
            files: self.files,
            next: (self.next + 1) as usize,
            over: if done {
                less(self.over, self.files@[self.next as int].size)
            } else {
                self.over
            },
        }
    }

    /// So many files were removed, one after the other.
    pub open spec fn after_all(self, n: nat) -> Pruner
        decreases n,
    {
        if n == 0 {
            self
        } else {
            self.after_all((n - 1) as nat).after(true)
        }
    }

    /// The place of the file to remove next.
    pub fn victim(&self) -> (at: Option<usize>)
        ensures
            at == self.next_victim(),
    {
        if self.over == 0 || self.next >= self.files.len() {
            None
        } else {
            Some(self.next)
        }
    }

    /// The next file was removed, or could not be.
    pub fn removed(&mut self, done: bool)
        requires
            old(self).next < old(self).files@.len(),
        ensures
            *final(self) == old(self).after(done),
    {
        assert(self.next < self.files.len());
        if done {
            self.over = self.over.saturating_sub(self.files[self.next].size);
        }
        self.next = self.next + 1;
    }
}

/// How many files go, if each can be removed.
pub open spec fn victims(files: Seq<CacheFile>, over: u64) -> nat
    decreases files.len(),
{
    if over == 0 || files.len() == 0 {
        0
    } else {
        1 + victims(files.skip(1), less(over, files[0].size))
    }
}

/// Where every removal works, pruning removes the files one by one from the
/// oldest on, and stops when so many are gone as have to go.
pub proof fn pruning_stops_in_time(p: Pruner)
    requires
        p.next <= p.files@.len(),
    ensures
        ({
            let gone = victims(p.files@.skip(p.next as int), p.over);
            &&& forall|i: nat|
                i < gone ==> (#[trigger] p.after_all(i)).next_victim() == Some(
                    (p.next + i) as usize,
                )
            &&& p.after_all(gone).next_victim() is None
            &&& p.after_all(gone).files == p.files
        }),
{
    let gone = victims(p.files@.skip(p.next as int), p.over);
    assert forall|i: nat| i < gone implies (#[trigger] p.after_all(i)).next_victim() == Some(
        (p.next + i) as usize,
    ) by {
        lemma_removed(p, i);
    }
    lemma_removed(p, gone);
}

proof fn lemma_removed(p: Pruner, i: nat)
    requires
        p.next <= p.files@.len(),
        i <= victims(p.files@.skip(p.next as int), p.over),
    ensures
        ({
            let q = p.after_all(i);
            &&& q.files == p.files
            &&& q.next == p.next + i
            &&& q.next <= q.files@.len()
            &&& victims(q.files@.skip(q.next as int), q.over) == victims(
                p.files@.skip(p.next as int),
                p.over,
            ) - i
        }),
    decreases i,
{
    if i > 0 {
        let before = p.after_all((i - 1) as nat);
        lemma_removed(p, (i - 1) as nat);
        let rest = before.files@.skip(before.next as int);
        assert(before.next < before.files.len());
        assert(rest[0] == before.files@[before.next as int]);
        assert(rest.skip(1) =~= before.files@.skip(before.next + 1));
    }
}

/// The sum of the sizes does not wrap where they fit together.
pub proof fn small_caches_are_counted(files: Seq<CacheFile>)
    requires
        total_size(files) <= u64::MAX,
    ensures
        counted_size(files) == total_size(files),
    decreases files.len(),
{
    if files.len() > 0 {
        small_caches_are_counted(files.drop_last());
        lemma_total_not_negative(files.drop_last());
    }
}

proof fn lemma_total_not_negative(files: Seq<CacheFile>)
    ensures
        total_size(files) >= 0,
    decreases files.len(),
{
    if files.len() > 0 {
        lemma_total_not_negative(files.drop_last());
    }
}

proof fn lemma_total_from_front(files: Seq<CacheFile>)
    requires
        files.len() > 0,
    ensures
        total_size(files) == files[0].size + total_size(files.skip(1)),
    decreases files.len(),
{
    if files.len() > 1 {
        lemma_total_from_front(files.drop_last());
        assert(files.drop_last().skip(1) =~= files.skip(1).drop_last());
        assert(files.skip(1).last() == files.last());
    } else {
        assert(files.skip(1) =~= Seq::empty());
        assert(files.drop_last() =~= Seq::empty());
        assert(total_size(files.drop_last()) == 0);
        assert(total_size(files.skip(1)) == 0);
    }
}

proof fn lemma_total_remove(files: Seq<CacheFile>, k: int)
    requires
        0 <= k < files.len(),
    ensures
        total_size(files) == total_size(files.remove(k)) + files[k].size,
    decreases files.len(),
{
    if k == files.len() - 1 {
        assert(files.remove(k) =~= files.drop_last());
    } else {
        lemma_total_remove(files.drop_last(), k);
        assert(files.remove(k).drop_last() =~= files.drop_last().remove(k));
        assert(files.remove(k).last() == files.last());
    }
}

proof fn lemma_total_reordered(files: Seq<CacheFile>, sorted: Seq<CacheFile>, order: Seq<int>)
    requires
        sort::is_order(order, files.len()),
        sorted.len() == files.len(),
        forall|i: int| 0 <= i < sorted.len() ==> #[trigger] sorted[i] == files[order[i]],
    ensures
        total_size(sorted) == total_size(files),
    decreases files.len(),
{
    if files.len() > 0 {
        let n = files.len() - 1;
        sort::lemma_order_covers(order, files.len(), n);
        let k = choose|k: int| 0 <= k < files.len() && #[trigger] order[k] == n;
        let fewer = order.remove(k);
        assert forall|i: int| 0 <= i < n implies 0 <= #[trigger] fewer[i] < n by {
            let from = if i < k { i } else { i + 1 };
            assert(fewer[i] == order[from]);
        }
        assert forall|i: int, j: int| 0 <= i < j < n implies #[trigger] fewer[i]
            != #[trigger] fewer[j] by {
            let x = if i < k { i } else { i + 1 };
            let y = if j < k { j } else { j + 1 };
            assert(fewer[i] == order[x] && fewer[j] == order[y]);
        }
        let rest = sorted.remove(k);
        assert forall|i: int| 0 <= i < rest.len() implies #[trigger] rest[i]
            == files.drop_last()[fewer[i]] by {
            let from = if i < k { i } else { i + 1 };
            assert(rest[i] == sorted[from]);
            assert(fewer[i] == order[from]);
        }
        lemma_total_reordered(files.drop_last(), rest, fewer);
        lemma_total_remove(sorted, k);
    }
}

/// Once a cache that has grown too large is pruned, and every removal worked,
/// it is within the limit; and no file went for which there was no need.
pub proof fn pruned_cache_fits(files: Seq<CacheFile>, sorted: Seq<CacheFile>)
    requires
        sort::stably_sorted(files, sorted),
        ART_CACHE_MAX_BYTES < total_size(files) <= u64::MAX,
    ensures
        ({
            let over = (counted_size(files) - ART_CACHE_MAX_BYTES) as u64;
            let gone = victims(sorted, over);
            &&& 0 < gone <= sorted.len()
            &&& total_size(sorted.skip(gone as int)) <= ART_CACHE_MAX_BYTES
            &&& total_size(sorted.skip(gone - 1)) > ART_CACHE_MAX_BYTES
        }),
{
    small_caches_are_counted(files);
    let order = choose|order: Seq<int>| #[trigger] sort::sorts_by(files, sorted, order);
    lemma_total_reordered(files, sorted, order);
    let over = (counted_size(files) - ART_CACHE_MAX_BYTES) as u64;
    pruning_reaches_the_limit(sorted, over, ART_CACHE_MAX_BYTES as int);
    if sorted.len() == 0 {
        assert(total_size(sorted) == 0);
    }
}

/// Pruning removes just enough: what is left fits the limit, and with one file
/// fewer removed it would not.
pub proof fn pruning_reaches_the_limit(files: Seq<CacheFile>, over: u64, limit: int)
    requires
        total_size(files) == limit + over,
        limit >= 0,
    ensures
        victims(files, over) <= files.len(),
        total_size(files.skip(victims(files, over) as int)) <= limit,
        victims(files, over) > 0 ==> total_size(files.skip(victims(files, over) - 1)) > limit,
    decreases files.len(),
{
    if over == 0 || files.len() == 0 {
        assert(files.skip(0) =~= files);
    } else {
        lemma_total_from_front(files);
        let rest = files.skip(1);
        let left = less(over, files[0].size);
        let n = victims(rest, left);
        if over > files[0].size {
            pruning_reaches_the_limit(rest, left, limit);
            assert(rest.skip(n as int) =~= files.skip(n as int + 1));
            if n > 0 {
                assert(rest.skip(n - 1) =~= files.skip(n as int));
            } else {
                assert(files.skip(0) =~= files);
            }
        } else {
            assert(n == 0);
            assert(files.skip(0) =~= files);
            assert(victims(files, over) == 1);
        }
    }
}

/// Files go from the least recently written on: in the order of removal none was
/// written after a later one.
pub proof fn oldest_files_go_first(files: Seq<CacheFile>, sorted: Seq<CacheFile>, i: int, j: int)
    requires
        sort::stably_sorted(files, sorted),
        0 <= i < j < sorted.len(),
    ensures
        sorted[i].modified <= sorted[j].modified,
{
    let order = choose|order: Seq<int>| #[trigger] sort::sorts_by(files, sorted, order);
    assert(!sorted[j].under(sorted[i]));
}

/// Nothing goes from a cache that is not too large; from one that is, each file
/// makes the rest to go smaller by its own size.
pub proof fn files_go_while_the_cache_is_too_large(files: Seq<CacheFile>, over: u64)
    ensures
        victims(files, 0) == 0,
        over > 0 && files.len() > 0 ==> victims(files, over) >= 1,
        files.len() > 0 && over > 0 && over <= files[0].size ==> victims(files, over) == 1,
        files.len() > 0 && over > files[0].size ==> victims(files, over) == 1 + victims(
            files.skip(1),
            (over - files[0].size) as u64,
        ),
{
    reveal_with_fuel(victims, 2);
}

/// A path is joined by one separator, whether the base ends in one or not.
pub proof fn paths_join_by_one_separator(base: Seq<char>, part: Seq<char>)
    requires
        base.len() > 0,
        base.last() != '/',
    ensures
        joined(base, part) == base + seq!['/'] + part,
        joined(base.push('/'), part) == joined(base, part),
        joined(Seq::empty(), part) == part,
{
    assert(joined(base, part) =~= base + seq!['/'] + part);
    assert(joined(base.push('/'), part) =~= joined(base, part));
    assert(joined(Seq::empty(), part) =~= part);
}

/// The cache directory of the environment counts before that of the home directory,
/// which is its `.cache`; without either there is no cache.
pub proof fn environment_names_the_cache(base: Seq<char>, home: Option<Seq<char>>, h: Seq<char>)
    ensures
        cache_dir(Some(base), home) == cache_dir(Some(base), None),
        cache_dir(None, Some(h)) == cache_dir(Some(joined(h, ".cache"@)), None),
        cache_dir(Some(base), home) is Some,
        cache_dir(None, None) is None,
{
}

/// The files of two addresses are the same only if the hashes of the addresses are.
pub proof fn files_are_named_by_hash(dir: Seq<char>, a: Seq<char>, b: Seq<char>)
    ensures
        (cached_at(dir, a) == cached_at(dir, b)) == (hashed(vstd::utf8::encode_utf8(a)) == hashed(
            vstd::utf8::encode_utf8(b),
        )),
{
    let x = hex(hashed(vstd::utf8::encode_utf8(a)));
    let y = hex(hashed(vstd::utf8::encode_utf8(b)));
    let head = if dir.len() > 0 && dir.last() != '/' {
        dir.push('/')
    } else {
        dir
    };
    assert(cached_at(dir, a) == head + x);
    assert(cached_at(dir, b) == head + y);
    if cached_at(dir, a) == cached_at(dir, b) {
        assert(x =~= (head + x).skip(head.len() as int));
        assert(y =~= (head + y).skip(head.len() as int));
        hex_tells_apart(
            hashed(vstd::utf8::encode_utf8(a)),
            hashed(vstd::utf8::encode_utf8(b)),
        );
    }
}

/// A cache is pruned if and only if its files take more than 50 MiB together, and then
/// by what they take more.
pub proof fn caches_are_pruned_above_the_limit(files: Vec<CacheFile>, res: Option<Pruner>)
    requires
        call_ensures(prune_art_cache, (files,), res),
        total_size(files@) <= u64::MAX,
    ensures
        res is Some == (total_size(files@) > 52_428_800),
        res matches Some(p) ==> p.over == total_size(files@) - 52_428_800 && p.next == 0
            && p.files@.len() == files@.len(),
{
    small_caches_are_counted(files@);
    if let Some(p) = res {
        let order = choose|order: Seq<int>| #[trigger] sort::sorts_by(files@, p.files@, order);
    }
}

} // verus!
