//! The in-memory image index: the scanned entries, their folder grouping,
//! and the single-flight loading state machine.
use vstd::prelude::*;
use crate::args::Args;
use crate::scanner::{folder_key, folder_of, is_image_file, is_image_path, rel_path, relative_to};
use crate::text::char_eq;

verus! {

/// How many thumbnails a folder preloads when it is opened.
pub const DEFAULT_PRELOAD_COUNT: usize = 8;

/// The loading state of one entry.  `Ready` carries the consumer's handle to
/// the finished thumbnail.
pub enum LoadState {
    NotRequested,
    Loading,
    Ready(u64),
}

/// One scanned image: where it is, how it is displayed, and whether its
/// thumbnail has been requested or produced.
pub struct ImageInfo {
    pub path: String,
    pub relative_path: String,
    pub state: LoadState,
}

/// The entries of one folder, as positions into the image list, in discovery
/// order.
pub struct FolderGroup {
    pub folder: String,
    pub indices: Vec<usize>,
}

/// The mathematical shape of one scanned entry.
pub ghost struct ScannedEntry {
    pub path: Seq<char>,
    pub rel: Seq<char>,
    pub folder: Seq<char>,
}

/// What a scan of `files` under `base` yields: the image files in discovery
/// order, each with its display path and folder key.
pub open spec fn scan_model(files: Seq<Seq<char>>, base: Seq<char>) -> Seq<ScannedEntry>
    decreases files.len(),
{
    if files.len() == 0 {
        Seq::empty()
    } else {
        let pre = scan_model(files.drop_last(), base);
        let f = files.last();
        if is_image_path(f) {
            pre.push(ScannedEntry { path: f, rel: rel_path(f, base), folder: folder_key(f, base) })
        } else {
            pre
        }
    }
}

/// The folder keys of `entries` in order of first appearance.
pub open spec fn group_keys(entries: Seq<ScannedEntry>) -> Seq<Seq<char>>
    decreases entries.len(),
{
    if entries.len() == 0 {
        Seq::empty()
    } else {
        let pre = group_keys(entries.drop_last());
        let k = entries.last().folder;
        if pre.contains(k) {
            pre
        } else {
            pre.push(k)
        }
    }
}

/// The positions of the entries whose folder is `key`, in increasing order.
pub open spec fn indices_for(entries: Seq<ScannedEntry>, key: Seq<char>) -> Seq<int>
    decreases entries.len(),
{
    if entries.len() == 0 {
        Seq::empty()
    } else {
        let pre = indices_for(entries.drop_last(), key);
        if entries.last().folder == key {
            pre.push(entries.len() - 1)
        } else {
            pre
        }
    }
}

pub proof fn lemma_group_keys_distinct(entries: Seq<ScannedEntry>)
    ensures
        forall|i: int, j: int|
            0 <= i < j < group_keys(entries).len() ==> group_keys(entries)[i] != group_keys(
                entries,
            )[j],
    decreases entries.len(),
{
    if entries.len() == 0 {
    } else {
        lemma_group_keys_distinct(entries.drop_last());
        let pre = group_keys(entries.drop_last());
        let k = entries.last().folder;
        if !pre.contains(k) {
            assert forall|i: int, j: int|
                0 <= i < j < pre.push(k).len() implies pre.push(k)[i] != pre.push(k)[j] by {
                if j == pre.len() {
                    assert(pre.push(k)[i] == pre[i]);
                    assert(pre[i] != k);
                }
            }
        }
    }
}

/// A key that never appears among the folder keys owns no positions.
pub proof fn lemma_absent_key_no_indices(entries: Seq<ScannedEntry>, key: Seq<char>)
    requires
        !group_keys(entries).contains(key),
    ensures
        indices_for(entries, key) =~= Seq::<int>::empty(),
    decreases entries.len(),
{
    if entries.len() == 0 {
    } else {
        let pre = group_keys(entries.drop_last());
        let k = entries.last().folder;
        if k == key {
            if pre.contains(k) {
                assert(group_keys(entries).contains(key));
            } else {
                assert(group_keys(entries)[group_keys(entries).len() - 1] == key);
                assert(group_keys(entries).contains(key));
            }
            assert(false);
        } else {
            if pre.contains(key) {
                let i = choose|i: int| 0 <= i < pre.len() && pre[i] == key;
                assert(group_keys(entries)[i] == key);
                assert(group_keys(entries).contains(key));
                assert(false);
            }
            lemma_absent_key_no_indices(entries.drop_last(), key);
        }
    }
}

/// The single-flight request transition: an entry that is neither loading nor
/// ready moves to `Loading` and its path is handed out as the task to run;
/// any other request changes nothing and hands out no task.
pub open spec fn request_transition(s: Seq<ImageInfo>, i: int) -> (Seq<ImageInfo>, Option<
    Seq<char>,
>) {
    if 0 <= i < s.len() && s[i].state is NotRequested {
        (
            s.update(
                i,
                ImageInfo {
                    path: s[i].path,
                    relative_path: s[i].relative_path,
                    state: LoadState::Loading,
                },
            ),
            Some(s[i].path@),
        )
    } else {
        (s, None)
    }
}

/// The consumer-side transition: a finished thumbnail for a position still in
/// range marks that entry `Ready`; a stale position is dropped silently.
pub open spec fn ready_transition(s: Seq<ImageInfo>, i: int, handle: u64) -> Seq<ImageInfo> {
    if 0 <= i < s.len() {
        s.update(
            i,
            ImageInfo {
                path: s[i].path,
                relative_path: s[i].relative_path,
                state: LoadState::Ready(handle),
            },
        )
    } else {
        s
    }
}

/// `ready_transition` folded over a batch of finished results.
pub open spec fn apply_results(s: Seq<ImageInfo>, rs: Seq<(int, u64)>) -> Seq<ImageInfo>
    decreases rs.len(),
{
    if rs.len() == 0 {
        s
    } else {
        ready_transition(apply_results(s, rs.drop_last()), rs.last().0, rs.last().1)
    }
}

/// `request_transition` folded over a batch of requested positions,
/// collecting the granted tasks.
pub open spec fn preload_fold(s: Seq<ImageInfo>, idxs: Seq<int>) -> (Seq<ImageInfo>, Seq<
    (int, Seq<char>),
>)
    decreases idxs.len(),
{
    if idxs.len() == 0 {
        (s, Seq::empty())
    } else {
        let (s1, tasks) = preload_fold(s, idxs.drop_last());
        let (s2, t) = request_transition(s1, idxs.last());
        match t {
            Some(p) => (s2, tasks.push((idxs.last(), p))),
            None => (s2, tasks),
        }
    }
}

/// Single-flight: a granted request moves the entry to `Loading`, and a
/// second request for the same entry before its result is consumed is
/// refused and changes nothing.
pub proof fn lemma_single_flight(s: Seq<ImageInfo>, i: int)
    ensures
        request_transition(s, i).1 is Some ==> request_transition(
            request_transition(s, i).0,
            i,
        ).1 is None,
        request_transition(s, i).1 is Some ==> request_transition(
            request_transition(s, i).0,
            i,
        ).0 == request_transition(s, i).0,
{
}

/// The picker's core state: configuration, the scanned index, and where the
/// private thumbnail cache lives.
pub struct BackgroundPickerApp {
    pub args: Args,
    pub images: Vec<ImageInfo>,
    pub folder_tree: Vec<FolderGroup>,
    pub loading: bool,
    pub cache_dir: String,
}

impl BackgroundPickerApp {
    /// A fresh picker over `args` whose private cache is at `cache_dir`,
    /// with an empty index awaiting a scan.
    pub fn new(args: Args, cache_dir: String) -> (r: BackgroundPickerApp)
        ensures
            r.args == args,
            r.images@.len() == 0,
            r.folder_tree@.len() == 0,
            r.loading,
            r.cache_dir == cache_dir,
    {
        BackgroundPickerApp {
            args,
            images: Vec::new(),
            folder_tree: Vec::new(),
            loading: true,
            cache_dir,
        }
    }

    /// Rebuild the index from the files of a directory walk, discarding any
    /// previous contents.  The entries are exactly the walked files whose
    /// extension is on the allow-list, in discovery order; the folder tree
    /// groups their positions by folder key in order of first appearance.
    pub fn scan_images(&mut self, files: &Vec<String>)
        ensures
            ({
                let model = scan_model(
                    files@.map_values(|s: String| s@),
                    old(self).args.directory@,
                );
                &&& final(self).images@.len() == model.len()
                &&& forall|i: int|
                    0 <= i < model.len() ==> {
                        &&& (#[trigger] final(self).images@[i]).path@ == model[i].path
                        &&& final(self).images@[i].relative_path@ == model[i].rel
                        &&& final(self).images@[i].state is NotRequested
                    }
                &&& final(self).folder_tree@.len() == group_keys(model).len()
                &&& forall|g: int|
                    0 <= g < group_keys(model).len() ==> {
                        &&& (#[trigger] final(self).folder_tree@[g]).folder@ == group_keys(
                            model,
                        )[g]
                        &&& final(self).folder_tree@[g].indices@.map_values(|u: usize| u as int)
                            == indices_for(model, group_keys(model)[g])
                    }
            }),
            !final(self).loading,
            final(self).args == old(self).args,
            final(self).cache_dir == old(self).cache_dir,
    {
        let ghost fviews = files@.map_values(|s: String| s@);
        let ghost basev = self.args.directory@;
        let base = self.args.directory.clone();
        let mut images: Vec<ImageInfo> = Vec::new();
        let mut folders: Vec<FolderGroup> = Vec::new();
        let mut k: usize = 0;
        while k < files.len()
            invariant
                k <= files.len(),
                fviews == files@.map_values(|s: String| s@),
                base@ == basev,
                ({
                    let m = scan_model(fviews.take(k as int), basev);
                    &&& images@.len() == m.len()
                    &&& forall|i: int|
                        0 <= i < m.len() ==> {
                            &&& (#[trigger] images@[i]).path@ == m[i].path
                            &&& images@[i].relative_path@ == m[i].rel
                            &&& images@[i].state is NotRequested
                        }
                    &&& folders@.len() == group_keys(m).len()
                    &&& forall|g: int|
                        0 <= g < group_keys(m).len() ==> {
                            &&& (#[trigger] folders@[g]).folder@ == group_keys(m)[g]
                            &&& folders@[g].indices@.map_values(|u: usize| u as int)
                                == indices_for(m, group_keys(m)[g])
                        }
                }),
            decreases files.len() - k,
        {
            let ghost m = scan_model(fviews.take(k as int), basev);
            proof {
                assert(fviews.take(k as int + 1).drop_last() =~= fviews.take(k as int));
                assert(fviews.take(k as int + 1).last() == fviews[k as int]);
                assert(fviews[k as int] == files@[k as int]@);
            }
            let f: &String = &files[k];
            if is_image_file(f.as_str()) {
                let rel = relative_to(f.as_str(), base.as_str());
                let fol = folder_of(f.as_str(), base.as_str());
                let ghost e = ScannedEntry { path: f@, rel: rel@, folder: fol@ };
                let ghost m1 = scan_model(fviews.take(k as int + 1), basev);
                proof {
                    assert(m1 == m.push(e));
                    assert(m1.drop_last() =~= m);
                    lemma_group_keys_distinct(m);
                }
                let idx: usize = images.len();
                images.push(
                    ImageInfo {
                        path: f.clone(),
                        relative_path: rel,
                        state: LoadState::NotRequested,
                    },
                );
                // Attach the new position to its folder's group, creating the
                // group on first appearance of the key.
                let mut g: usize = 0;
                let mut gfound: Option<usize> = None;
                while g < folders.len()
                    invariant
                        g <= folders@.len(),
                        match gfound {
                            None => forall|j: int|
                                0 <= j < g ==> (#[trigger] folders@[j]).folder@ != fol@,
                            Some(gi) => gi < folders@.len() && folders@[gi as int].folder@
                                == fol@,
                        },
                    decreases folders@.len() - g,
                {
                    if gfound.is_none() && char_eq(folders[g].folder.as_str(), fol.as_str()) {
                        gfound = Some(g);
                    }
                    g = g + 1;
                }
                if let Some(g) = gfound {
                    proof {
                        assert(group_keys(m)[g as int] == fol@);
                        assert(group_keys(m).contains(fol@));
                        assert(group_keys(m1) == group_keys(m));
                    }
                    let ghost oldfolders = folders@;
                    let mut grp: FolderGroup = folders.remove(g);
                    grp.indices.push(idx);
                    folders.insert(g, grp);
                    proof {
                        assert forall|j: int| 0 <= j < group_keys(m1).len() implies {
                            &&& (#[trigger] folders@[j]).folder@ == group_keys(m1)[j]
                            &&& folders@[j].indices@.map_values(|u: usize| u as int)
                                == indices_for(m1, group_keys(m1)[j])
                        } by {
                            assert(folders@ =~= oldfolders.update(g as int, folders@[g as int]));
                            if j == g {
                                assert(folders@[j].indices@ =~= oldfolders[j].indices@.push(idx));
                                assert(folders@[j].indices@.map_values(|u: usize| u as int)
                                    =~= oldfolders[j].indices@.map_values(|u: usize| u as int).push(
                                    idx as int,
                                ));
                                assert(indices_for(m1, group_keys(m1)[j]) == indices_for(
                                    m,
                                    group_keys(m)[j],
                                ).push(m.len() as int));
                            } else {
                                assert(folders@[j] == oldfolders[j]);
                                assert(group_keys(m)[j] != fol@);
                                assert(indices_for(m1, group_keys(m1)[j]) == indices_for(
                                    m,
                                    group_keys(m)[j],
                                ));
                            }
                        }
                    }
                } else {
                    proof {
                        if group_keys(m).contains(fol@) {
                            let j = choose|j: int|
                                0 <= j < group_keys(m).len() && group_keys(m)[j] == fol@;
                            assert(folders@[j].folder@ == fol@);
                            assert(false);
                        }
                        assert(group_keys(m1) == group_keys(m).push(fol@));
                    }
                    let mut iv: Vec<usize> = Vec::new();
                    iv.push(idx);
                    let ghost oldfolders = folders@;
                    folders.push(FolderGroup { folder: fol, indices: iv });
                    proof {
                        assert forall|j: int| 0 <= j < group_keys(m1).len() implies {
                            &&& (#[trigger] folders@[j]).folder@ == group_keys(m1)[j]
                            &&& folders@[j].indices@.map_values(|u: usize| u as int)
                                == indices_for(m1, group_keys(m1)[j])
                        } by {
                            if j < oldfolders.len() {
                                assert(folders@[j] == oldfolders[j]);
                                assert(group_keys(m)[j] != fol@);
                                assert(indices_for(m1, group_keys(m1)[j]) == indices_for(
                                    m,
                                    group_keys(m)[j],
                                ));
                            } else {
                                assert(folders@[j].indices@.map_values(|u: usize| u as int)
                                    =~= seq![idx as int]);
                                lemma_absent_key_no_indices(m, fol@);
                                assert(indices_for(m1, fol@) =~= seq![m.len() as int]);
                            }
                        }
                    }
                }
            } else {
                proof {
                    assert(scan_model(fviews.take(k as int + 1), basev) == m);
                }
            }
            k = k + 1;
        }
        proof {
            assert(fviews.take(files@.len() as int) =~= fviews);
        }
        self.images = images;
        self.folder_tree = folders;
        self.loading = false;
    }

    /// Request the thumbnail of one entry.  Exactly when the entry exists and
    /// has not been requested before, it is marked `Loading` and its path is
    /// returned as the task to hand to a worker; otherwise nothing changes.
    pub fn load_thumbnail(&mut self, index: usize) -> (r: Option<String>)
        ensures
            final(self).images@ == request_transition(old(self).images@, index as int).0,
            r is Some <==> request_transition(old(self).images@, index as int).1 is Some,
            r is Some ==> r.unwrap()@ == request_transition(
                old(self).images@,
                index as int,
            ).1.unwrap(),
            final(self).args == old(self).args,
            final(self).folder_tree == old(self).folder_tree,
            final(self).loading == old(self).loading,
            final(self).cache_dir == old(self).cache_dir,
    {
        if index >= self.images.len() {
            return None;
        }
        let not_requested = match &self.images[index].state {
            LoadState::NotRequested => true,
            _ => false,
        };
        if !not_requested {
            return None;
        }
        let ghost olds = self.images@;
        let mut e: ImageInfo = self.images.remove(index);
        let p = e.path.clone();
        e.state = LoadState::Loading;
        self.images.insert(index, e);
        proof {
            assert(self.images@ =~= request_transition(olds, index as int).0);
        }
        Some(p)
    }

    /// Request the first few entries of a folder, in order, granting a task
    /// for each that is not already loading or ready.
    pub fn preload_batch(&mut self, indices: &Vec<usize>) -> (tasks: Vec<(usize, String)>)
        ensures
            ({
                let lim = if indices@.len() < DEFAULT_PRELOAD_COUNT as int {
                    indices@.len() as int
                } else {
                    DEFAULT_PRELOAD_COUNT as int
                };
                let folded = preload_fold(
                    old(self).images@,
                    indices@.take(lim).map_values(|u: usize| u as int),
                );
                &&& final(self).images@ == folded.0
                &&& tasks@.map_values(|t: (usize, String)| (t.0 as int, t.1@)) == folded.1
            }),
            final(self).args == old(self).args,
            final(self).folder_tree == old(self).folder_tree,
            final(self).loading == old(self).loading,
            final(self).cache_dir == old(self).cache_dir,
    {
        let lim: usize = if indices.len() < DEFAULT_PRELOAD_COUNT {
            indices.len()
        } else {
            DEFAULT_PRELOAD_COUNT
        };
        let ghost idxs = indices@.take(lim as int).map_values(|u: usize| u as int);
        let mut tasks: Vec<(usize, String)> = Vec::new();
        let mut j: usize = 0;
        while j < lim
            invariant
                j <= lim,
                lim <= indices@.len(),
                idxs == indices@.take(lim as int).map_values(|u: usize| u as int),
                ({
                    let folded = preload_fold(old(self).images@, idxs.take(j as int));
                    &&& self.images@ == folded.0
                    &&& tasks@.map_values(|t: (usize, String)| (t.0 as int, t.1@)) == folded.1
                }),
                self.args == old(self).args,
                self.folder_tree == old(self).folder_tree,
                self.loading == old(self).loading,
                self.cache_dir == old(self).cache_dir,
            decreases lim - j,
        {
            proof {
                assert(idxs.take(j as int + 1).drop_last() =~= idxs.take(j as int));
                assert(idxs.take(j as int + 1).last() == indices@[j as int] as int);
            }
            let ghost oldtasks = tasks@;
            let idx: usize = indices[j];
            let r = self.load_thumbnail(idx);
            match r {
                Some(p) => {
                    tasks.push((idx, p));
                    proof {
                        assert(tasks@.map_values(|t: (usize, String)| (t.0 as int, t.1@))
                            =~= oldtasks.map_values(|t: (usize, String)| (t.0 as int, t.1@)).push(
                            (idx as int, p@),
                        ));
                    }
                },
                None => {},
            }
            j = j + 1;
        }
        proof {
            assert(idxs.take(idxs.len() as int) =~= idxs);
        }
        tasks
    }

    /// Drain a batch of finished results into the index: each position still
    /// in range becomes `Ready` with the handle the consumer assigned; stale
    /// positions are dropped.
    pub fn process_thumbnail_results(&mut self, results: &Vec<(usize, u64)>)
        ensures
            final(self).images@ == apply_results(
                old(self).images@,
                results@.map_values(|t: (usize, u64)| (t.0 as int, t.1)),
            ),
            final(self).args == old(self).args,
            final(self).folder_tree == old(self).folder_tree,
            final(self).loading == old(self).loading,
            final(self).cache_dir == old(self).cache_dir,
    {
        let ghost rs = results@.map_values(|t: (usize, u64)| (t.0 as int, t.1));
        let mut j: usize = 0;
        while j < results.len()
            invariant
                j <= results@.len(),
                rs == results@.map_values(|t: (usize, u64)| (t.0 as int, t.1)),
                self.images@ == apply_results(old(self).images@, rs.take(j as int)),
                self.args == old(self).args,
                self.folder_tree == old(self).folder_tree,
                self.loading == old(self).loading,
                self.cache_dir == old(self).cache_dir,
            decreases results@.len() - j,
        {
            proof {
                assert(rs.take(j as int + 1).drop_last() =~= rs.take(j as int));
                assert(rs.take(j as int + 1).last() == (results@[j as int].0 as int, results@[
                    j as int
                ].1));
            }
            let ghost olds = self.images@;
            let index: usize = results[j].0;
            let handle: u64 = results[j].1;
            if index < self.images.len() {
                let mut e: ImageInfo = self.images.remove(index);
                e.state = LoadState::Ready(handle);
                self.images.insert(index, e);
                proof {
                    assert(self.images@ =~= ready_transition(olds, index as int, handle));
                }
            }
            j = j + 1;
        }
        proof {
            assert(rs.take(rs.len() as int) =~= rs);
        }
    }
}

} // verus!
