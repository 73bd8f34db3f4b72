//! Cache validity and the strict lookup order over cache locations.
use vstd::prelude::*;
use vstd::string::StringExecFns;
use crate::cache_key::{cache_entry_path, get_cached_thumbnail_path_static, get_thumbnail_hash,
    thumbnail_hash};

verus! {

/// What a filesystem probe of one cache location reported: whether the file
/// exists, and its modification time in seconds since the epoch, where it
/// could be read.
#[derive(Clone, Copy)]
pub struct CacheProbe {
    pub exists: bool,
    pub mtime: Option<u64>,
}

/// A missing timestamp counts as the epoch, i.e. "very old".  For a source
/// file this deliberately makes an unreadable source validate against any
/// cache entry.
pub open spec fn mtime_or_epoch(t: Option<u64>) -> u64 {
    match t {
        Some(v) => v,
        None => 0,
    }
}

/// A cached thumbnail is valid iff it exists and is not older than its
/// source.
pub open spec fn cache_valid(source_mtime: Option<u64>, probe: CacheProbe) -> bool {
    probe.exists && mtime_or_epoch(probe.mtime) >= mtime_or_epoch(source_mtime)
}

/// Validity of one cache location: false when the cached file does not
/// exist, else true exactly when its timestamp is at least the source's,
/// with missing timestamps counting as the epoch.
pub fn is_thumbnail_cache_valid_static(
    cache_exists: bool,
    source_mtime: Option<u64>,
    cache_mtime: Option<u64>,
) -> (r: bool)
    ensures
        r == cache_valid(source_mtime, CacheProbe { exists: cache_exists, mtime: cache_mtime }),
{
    if !cache_exists {
        return false;
    }
    let s: u64 = match source_mtime {
        Some(v) => v,
        None => 0,
    };
    let c: u64 = match cache_mtime {
        Some(v) => v,
        None => 0,
    };
    c >= s
}

/// The position of the first valid cache location in a priority-ordered list
/// of probes, or `-1` when none is valid.
pub open spec fn first_valid_index(probes: Seq<CacheProbe>, src: Option<u64>) -> int
    decreases probes.len(),
{
    if probes.len() == 0 {
        -1
    } else if cache_valid(src, probes[0]) {
        0
    } else {
        let r = first_valid_index(probes.drop_first(), src);
        if r == -1 {
            -1
        } else {
            r + 1
        }
    }
}

/// The lookup order is strict: the chosen location is valid, and every
/// location of higher priority is invalid — a valid earlier tier is never
/// passed over for a later one.
pub proof fn lemma_first_valid(probes: Seq<CacheProbe>, src: Option<u64>)
    ensures
        -1 <= first_valid_index(probes, src) < probes.len(),
        first_valid_index(probes, src) >= 0 ==> cache_valid(
            src,
            probes[first_valid_index(probes, src)],
        ),
        forall|j: int|
            0 <= j < probes.len() && j < first_valid_index(probes, src) ==> !cache_valid(
                src,
                probes[j],
            ),
        first_valid_index(probes, src) == -1 ==> forall|j: int|
            0 <= j < probes.len() ==> !cache_valid(src, probes[j]),
    decreases probes.len(),
{
    if probes.len() == 0 {
    } else if cache_valid(src, probes[0]) {
    } else {
        lemma_first_valid(probes.drop_first(), src);
        assert forall|j: int|
            0 <= j < probes.len() && j < first_valid_index(probes, src) implies !cache_valid(
            src,
            probes[j],
        ) by {
            if j > 0 {
                assert(probes.drop_first()[j - 1] == probes[j]);
            }
        }
        if first_valid_index(probes, src) == -1 {
            assert forall|j: int| 0 <= j < probes.len() implies !cache_valid(src, probes[j]) by {
                if j > 0 {
                    assert(probes.drop_first()[j - 1] == probes[j]);
                }
            }
        }
    }
}

pub proof fn lemma_first_valid_unique(probes: Seq<CacheProbe>, src: Option<u64>, p: int)
    requires
        -1 <= p < probes.len(),
        p >= 0 ==> cache_valid(src, probes[p]),
        forall|j: int| 0 <= j < probes.len() && j < p ==> !cache_valid(src, probes[j]),
        p == -1 ==> forall|j: int| 0 <= j < probes.len() ==> !cache_valid(src, probes[j]),
    ensures
        first_valid_index(probes, src) == p,
{
    lemma_first_valid(probes, src);
    let q = first_valid_index(probes, src);
    if q > p {
        if p >= 0 {
            assert(!cache_valid(src, probes[p]));
            assert(false);
        } else {
            assert(!cache_valid(src, probes[q]));
            assert(false);
        }
    }
    if q < p {
        if q >= 0 {
            assert(!cache_valid(src, probes[q]));
            assert(false);
        } else {
            assert(!cache_valid(src, probes[p]));
            assert(false);
        }
    }
}

/// The shared-cache locations to probe for a source path, in priority order:
/// the `normal` tier, then the `large` tier, under the platform cache-home;
/// none when the platform has no cache-home.
pub open spec fn shared_candidates(path: Seq<char>, cache_home: Option<Seq<char>>) -> Seq<
    Seq<char>,
> {
    match cache_home {
        None => Seq::empty(),
        Some(ch) => seq![
            ch + "/thumbnails/normal/"@ + thumbnail_hash(path) + ".png"@,
            ch + "/thumbnails/large/"@ + thumbnail_hash(path) + ".png"@,
        ],
    }
}

/// The shared-cache files worth probing for `path`, in priority order.
pub fn shared_thumbnail_candidates(path: &str, cache_home: Option<&str>) -> (r: Vec<String>)
    ensures
        r@.map_values(|s: String| s@) == shared_candidates(
            path@,
            match cache_home {
                Some(ch) => Some(ch@),
                None => None,
            },
        ),
{
    let mut r: Vec<String> = Vec::new();
    match cache_home {
        None => {
            assert(r@.map_values(|s: String| s@) =~= Seq::<Seq<char>>::empty());
        },
        Some(ch) => {
            let hash = match get_thumbnail_hash(path) {
                Some(h) => h,
                None => {
                    return r;
                },
            };
            let mut normal = String::from_str(ch);
            normal.append("/thumbnails/normal/");
            normal.append(hash.as_str());
            normal.append(".png");
            let mut large = String::from_str(ch);
            large.append("/thumbnails/large/");
            large.append(hash.as_str());
            large.append(".png");
            r.push(normal);
            r.push(large);
            proof {
                assert(r@.map_values(|s: String| s@) =~= shared_candidates(path@, Some(ch@)));
            }
        },
    }
    r
}

/// Every cache location the lookup consults for `path`, in the strict
/// resolution order: shared system tiers first, the private cache last.
/// Fresh generation is attempted only when a probe of every one of these
/// locations turns up nothing valid.
pub open spec fn resolution_order(
    path: Seq<char>,
    cache_home: Option<Seq<char>>,
    cache_dir: Seq<char>,
) -> Seq<Seq<char>> {
    shared_candidates(path, cache_home) + seq![cache_entry_path(path, cache_dir)]
}

/// The cache files to probe for `path` before generating, in the strict
/// resolution order: shared caches first, then the private cache.
pub fn resolution_candidates(path: &str, cache_home: Option<&str>, cache_dir: &str) -> (r: Vec<
    String,
>)
    ensures
        r@.map_values(|s: String| s@) == resolution_order(
            path@,
            match cache_home {
                Some(ch) => Some(ch@),
                None => None,
            },
            cache_dir@,
        ),
{
    let mut r = shared_thumbnail_candidates(path, cache_home);
    let ghost shared = r@.map_values(|s: String| s@);
    let private = match get_cached_thumbnail_path_static(path, cache_dir) {
        Some(p) => p,
        None => {
            return r;
        },
    };
    r.push(private);
    proof {
        assert(r@.map_values(|s: String| s@) =~= shared + seq![
            cache_entry_path(path@, cache_dir@),
        ]);
    }
    r
}

/// The cache locations a resolution actually attempts before generating,
/// as positions into the probed candidate list (shared tiers first, the
/// private location last): the first valid shared tier, if any, then the
/// private location if valid.  A decode failure of an attempted location
/// falls through to the next planned one — from a bad shared tier straight
/// to the private cache, never to another shared tier.
pub open spec fn attempt_plan(probes: Seq<CacheProbe>, src: Option<u64>) -> Seq<int> {
    let shared = probes.drop_last();
    let fv = first_valid_index(shared, src);
    let shared_part: Seq<int> = if fv >= 0 {
        seq![fv]
    } else {
        Seq::empty()
    };
    let private_part: Seq<int> = if cache_valid(src, probes.last()) {
        seq![probes.len() - 1]
    } else {
        Seq::empty()
    };
    shared_part + private_part
}

/// Compute the attempt plan for a probed candidate list whose last entry is
/// the private cache location.
pub fn cache_attempt_plan(probes: &Vec<CacheProbe>, source_mtime: Option<u64>) -> (r: Vec<usize>)
    requires
        probes@.len() >= 1,
    ensures
        r@.map_values(|u: usize| u as int) == attempt_plan(probes@, source_mtime),
{
    let n: usize = probes.len();
    let ghost shared = probes@.drop_last();
    let mut found: Option<usize> = None;
    let mut i: usize = 0;
    while i < n - 1
        invariant
            i <= n - 1,
            n == probes@.len(),
            n >= 1,
            shared == probes@.drop_last(),
            match found {
                None => forall|j: int| 0 <= j < i ==> !cache_valid(source_mtime, shared[j]),
                Some(fi) => fi < i && cache_valid(source_mtime, shared[fi as int])
                    && forall|j: int| 0 <= j < fi ==> !cache_valid(source_mtime, shared[j]),
            },
        decreases n - 1 - i,
    {
        if found.is_none() {
            let pr = probes[i];
            proof {
                assert(shared[i as int] == probes@[i as int]);
            }
            if is_thumbnail_cache_valid_static(pr.exists, source_mtime, pr.mtime) {
                found = Some(i);
            }
        }
        i = i + 1;
    }
    let mut r: Vec<usize> = Vec::new();
    match found {
        Some(fi) => {
            proof {
                lemma_first_valid_unique(shared, source_mtime, fi as int);
            }
            r.push(fi);
        },
        None => {
            proof {
                lemma_first_valid_unique(shared, source_mtime, -1);
            }
        },
    }
    let last = probes[n - 1];
    proof {
        assert(probes@.last() == probes@[n - 1]);
    }
    if is_thumbnail_cache_valid_static(last.exists, source_mtime, last.mtime) {
        r.push(n - 1);
    }
    proof {
        assert(r@.map_values(|u: usize| u as int) =~= attempt_plan(probes@, source_mtime));
    }
    r
}

/// The cache round trip: a valid private-cache entry — as a successful
/// generation's write-back leaves behind — means the next resolution of the
/// same source consults a cache location rather than generating, and the
/// private location itself is among the attempts, in last position.
pub proof fn lemma_round_trip_consults_cache(probes: Seq<CacheProbe>, src: Option<u64>)
    requires
        probes.len() >= 1,
        cache_valid(src, probes.last()),
    ensures
        attempt_plan(probes, src).len() > 0,
        attempt_plan(probes, src).last() == probes.len() - 1,
{
}

/// Pick the first valid location among priority-ordered candidates, given
/// what a probe of each reported.  Returns the path of the chosen location,
/// or nothing when every location is missing or stale.
pub fn find_existing_thumbnail(
    candidates: &Vec<String>,
    probes: &Vec<CacheProbe>,
    source_mtime: Option<u64>,
) -> (r: Option<String>)
    requires
        candidates@.len() == probes@.len(),
    ensures
        match r {
            Some(p) => first_valid_index(probes@, source_mtime) >= 0 && p@ == candidates@[
                first_valid_index(probes@, source_mtime)
            ]@,
            None => first_valid_index(probes@, source_mtime) == -1,
        },
{
    let mut i: usize = 0;
    while i < probes.len()
        invariant
            i <= probes@.len(),
            candidates@.len() == probes@.len(),
            forall|j: int| 0 <= j < i ==> !cache_valid(source_mtime, probes@[j]),
        decreases probes@.len() - i,
    {
        let pr = probes[i];
        if is_thumbnail_cache_valid_static(pr.exists, source_mtime, pr.mtime) {
            proof {
                lemma_first_valid_unique(probes@, source_mtime, i as int);
            }
            return Some(candidates[i].clone());
        }
        i = i + 1;
    }
    proof {
        lemma_first_valid_unique(probes@, source_mtime, -1);
    }
    None
}

} // verus!
