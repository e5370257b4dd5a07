//! The storage the module files are staged in: a tmpfs when it can hold
//! overlay xattrs, else an ext4 image.
use vstd::prelude::*;

use crate::defs;
use crate::paths::{path_parts, path_view, rooted_string, rooted_text};
use crate::text::concat_str;

verus! {

/// A storage backend: where it is mounted and what kind it is.
pub trait StorageBackend: Sized {
    spec fn spec_mount_point(&self) -> Seq<char>;

    spec fn spec_mode(&self) -> Seq<char>;

    /// Finishes the storage; neither backend has anything left to do.
    fn commit(&mut self, disable_umount: bool) -> (r: Result<(), String>)
        ensures
            r == Ok::<(), String>(()),
            *final(self) == *old(self),
    ;

    fn mount_point(&self) -> (r: &str)
        ensures
            r@ == self.spec_mount_point(),
    ;

    fn mode(&self) -> (r: &str)
        ensures
            r@ == self.spec_mode(),
    ;
}

/// Storage in an ext4 image.
#[derive(Debug, Clone)]
pub struct Ext4Backend {
    pub mount_point: String,
    pub mode: String,
}

impl Ext4Backend {
    pub fn new(mount_point: &str) -> (r: Self)
        ensures
            r.mount_point@ == mount_point@,
            r.mode@ == "ext4"@,
    {
        Ext4Backend { mount_point: String::from_str(mount_point), mode: String::from_str("ext4") }
    }
}

impl StorageBackend for Ext4Backend {
    open spec fn spec_mount_point(&self) -> Seq<char> {
        self.mount_point@
    }

    open spec fn spec_mode(&self) -> Seq<char> {
        self.mode@
    }

    fn commit(&mut self, disable_umount: bool) -> (r: Result<(), String>) {
        Ok(())
    }

    fn mount_point(&self) -> (r: &str) {
        self.mount_point.as_str()
    }

    fn mode(&self) -> (r: &str) {
        self.mode.as_str()
    }
}

/// Storage in a tmpfs.
#[derive(Debug, Clone)]
pub struct TmpfsBackend {
    pub mount_point: String,
    pub mode: String,
}

impl TmpfsBackend {
    pub fn new(mount_point: &str) -> (r: Self)
        ensures
            r.mount_point@ == mount_point@,
            r.mode@ == "tmpfs"@,
    {
        TmpfsBackend { mount_point: String::from_str(mount_point), mode: String::from_str("tmpfs") }
    }
}

impl StorageBackend for TmpfsBackend {
    open spec fn spec_mount_point(&self) -> Seq<char> {
        self.mount_point@
    }

    open spec fn spec_mode(&self) -> Seq<char> {
        self.mode@
    }

    fn commit(&mut self, disable_umount: bool) -> (r: Result<(), String>) {
        Ok(())
    }

    fn mount_point(&self) -> (r: &str) {
        self.mount_point.as_str()
    }

    fn mode(&self) -> (r: &str) {
        self.mode.as_str()
    }
}

/// One of the two backends.
#[derive(Debug, Clone)]
pub enum AnyBackend {
    Tmpfs(TmpfsBackend),
    Ext4(Ext4Backend),
}

/// The storage that was set up.
#[derive(Debug, Clone)]
pub struct StorageHandle {
    pub backend: AnyBackend,
}

impl StorageHandle {
    pub open spec fn spec_mount_point(&self) -> Seq<char> {
        match self.backend {
            AnyBackend::Tmpfs(b) => b.mount_point@,
            AnyBackend::Ext4(b) => b.mount_point@,
        }
    }

    pub open spec fn spec_mode(&self) -> Seq<char> {
        match self.backend {
            AnyBackend::Tmpfs(b) => b.mode@,
            AnyBackend::Ext4(b) => b.mode@,
        }
    }

    pub fn new(backend: AnyBackend) -> (r: Self)
        ensures
            r.backend == backend,
    {
        StorageHandle { backend }
    }

    pub fn commit(&mut self, disable_umount: bool) -> (r: Result<(), String>)
        ensures
            r == Ok::<(), String>(()),
            *final(self) == *old(self),
    {
        match &mut self.backend {
            AnyBackend::Tmpfs(b) => b.commit(disable_umount),
            AnyBackend::Ext4(b) => b.commit(disable_umount),
        }
    }

    pub fn mount_point(&self) -> (r: &str)
        ensures
            r@ == self.spec_mount_point(),
    {
        match &self.backend {
            AnyBackend::Tmpfs(b) => b.mount_point(),
            AnyBackend::Ext4(b) => b.mount_point(),
        }
    }

    pub fn mode(&self) -> (r: &str)
        ensures
            r@ == self.spec_mode(),
    {
        match &self.backend {
            AnyBackend::Tmpfs(b) => b.mode(),
            AnyBackend::Ext4(b) => b.mode(),
        }
    }
}

/// What to set up: the mount point, the directories whose size the ext4
/// image has to hold, and how to mount.
#[derive(Debug, Clone)]
pub struct StorageRequest {
    pub mnt_base: String,
    pub sources: Vec<String>,
    pub force_ext4: bool,
    pub mount_source: String,
    pub disable_umount: bool,
    pub img_path: String,
}

/// The storage for the module directory: its image is the modules image.
pub fn setup(mnt_base: &str, moduledir: &str, force_ext4: bool, mount_source: &str, disable_umount: bool) -> (r: StorageRequest)
    ensures
        r.mnt_base@ == mnt_base@,
        r.sources@.len() == 1 && r.sources@[0]@ == moduledir@,
        r.force_ext4 == force_ext4,
        r.mount_source@ == mount_source@,
        r.disable_umount == disable_umount,
        r.img_path@ == defs::MODULES_IMG_FILE@,
{
    let mut sources: Vec<String> = Vec::new();
    sources.push(String::from_str(moduledir));
    setup_with_sources(mnt_base, sources, force_ext4, mount_source, disable_umount, defs::MODULES_IMG_FILE)
}

/// The storage for the given source directories and image.
pub fn setup_with_sources(
    mnt_base: &str,
    sources: Vec<String>,
    force_ext4: bool,
    mount_source: &str,
    disable_umount: bool,
    img_path: &str,
) -> (r: StorageRequest)
    ensures
        r.mnt_base@ == mnt_base@,
        r.sources@ == sources@,
        r.force_ext4 == force_ext4,
        r.mount_source@ == mount_source@,
        r.disable_umount == disable_umount,
        r.img_path@ == img_path@,
{
    StorageRequest {
        mnt_base: String::from_str(mnt_base),
        sources,
        force_ext4,
        mount_source: String::from_str(mount_source),
        disable_umount,
        img_path: String::from_str(img_path),
    }
}

impl StorageRequest {
    /// A tmpfs is tried first unless ext4 is forced.
    pub fn tries_tmpfs(&self) -> (r: bool)
        ensures
            r == !self.force_ext4,
    {
        !self.force_ext4
    }

    /// The glob of stale image files removed before setup.
    pub fn image_glob(&self) -> (r: String)
        ensures
            r@ == self.img_path@ + "*"@,
    {
        concat_str(self.img_path.as_str(), "*")
    }

    /// The storage once set up: the tmpfs when it was tried and holds
    /// overlay xattrs, else the ext4 image.
    pub fn finish(&self, tmpfs_ready: bool) -> (r: StorageHandle)
        ensures
            r.spec_mount_point() == self.mnt_base@,
            r.spec_mode() == (if !self.force_ext4 && tmpfs_ready {
                "tmpfs"@
            } else {
                "ext4"@
            }),
    {
        if !self.force_ext4 && tmpfs_ready {
            StorageHandle::new(AnyBackend::Tmpfs(TmpfsBackend::new(self.mnt_base.as_str())))
        } else {
            StorageHandle::new(AnyBackend::Ext4(Ext4Backend::new(self.mnt_base.as_str())))
        }
    }
}

/// `e2fsck` exit codes 0 to 3 mean the image is usable.
pub fn e2fsck_code_ok(code: i32) -> (r: bool)
    ensures
        r == (0 <= code && code <= 3),
{
    0 <= code && code <= 3
}

/// The paths whose SELinux context a staged file takes, most specific
/// first: the path itself under `/`, then each parent up to `/`.
pub open spec fn context_candidates(relative: Seq<char>) -> Seq<Seq<char>> {
    let names = path_view(relative).names;
    Seq::new(names.len() + 1, |i: int| rooted_text(names.take(names.len() - i)))
}

pub fn live_context_candidates(relative: &str) -> (r: Vec<String>)
    ensures
        r@.len() == context_candidates(relative@).len(),
        forall|i: int| 0 <= i < r@.len() ==> (#[trigger] r@[i])@ == context_candidates(relative@)[i],
{
    let parts = path_parts(relative);
    let n = parts.names.len();
    let mut out: Vec<String> = Vec::new();
    let mut k: usize = n;
    while k > 0
        invariant
            k <= n,
            n == parts.names@.len(),
            parts.view_of() == path_view(relative@),
            out@.len() == n - k,
            forall|i: int| 0 <= i < out@.len() ==> (#[trigger] out@[i])@ == context_candidates(relative@)[i],
        decreases k,
    {
        let c = rooted_string(&parts.names, k);
        out.push(c);
        k = k - 1;
    }
    let root = rooted_string(&parts.names, 0);
    out.push(root);
    out
}

/// The context to apply: the first candidate whose context could be read,
/// else the system file context.
pub open spec fn chosen_context(found: Seq<Option<Seq<char>>>) -> Seq<char>
    decreases found.len(),
{
    if found.len() == 0 {
        "u:object_r:system_file:s0"@
    } else {
        match found[0] {
            Some(c) => c,
            None => chosen_context(found.drop_first()),
        }
    }
}

pub fn best_effort_live_context(found: &Vec<Option<String>>) -> (r: String)
    ensures
        r@ == chosen_context(found@.map_values(|o: Option<String>| match o {
            Some(s) => Some(s@),
            None => None,
        })),
{
    let ghost fv = found@.map_values(|o: Option<String>| match o {
        Some(s) => Some(s@),
        None => None,
    });
    let mut i: usize = 0;
    assert(fv.skip(0) =~= fv);
    while i < found.len()
        invariant
            i <= found@.len(),
            fv == found@.map_values(|o: Option<String>| match o {
                Some(s) => Some(s@),
                None => None,
            }),
            chosen_context(fv) == chosen_context(fv.skip(i as int)),
        decreases found@.len() - i,
    {
        assert(fv.skip(i as int)[0] == fv[i as int]);
        match &found[i] {
            Some(c) => {
                return c.clone();
            },
            None => {},
        }
        assert(fv.skip(i as int).drop_first() =~= fv.skip(i + 1));
        i = i + 1;
    }
    assert(fv.skip(i as int).len() == 0);
    String::from_str("u:object_r:system_file:s0")
}

/// The bytes the module files take, counted as an ext4 image is sized:
/// the blocks of each regular file, a file reached through several hard
/// links counted once.
#[derive(Debug)]
pub struct SizeTally {
    pub total: u64,
    /// Device and inode of each file counted.
    pub seen: Vec<(u64, u64)>,
}

impl SizeTally {
    /// The files counted so far, by device and inode.
    pub open spec fn counted(&self) -> Set<(u64, u64)> {
        self.seen@.to_set()
    }

    pub fn new() -> (r: Self)
        ensures
            r.total == 0,
            r.counted() == Set::<(u64, u64)>::empty(),
    {
        let r = SizeTally { total: 0, seen: Vec::new() };
        assert(r.seen@.to_set() =~= Set::<(u64, u64)>::empty());
        r
    }

    /// Counts a regular file of `blocks` 512-byte blocks, unless the same
    /// device and inode was counted before; says whether it counted it.
    pub fn add_file(&mut self, dev: u64, ino: u64, blocks: u64) -> (counted: bool)
        requires
            old(self).total + blocks * 512 <= u64::MAX,
        ensures
            counted == !old(self).counted().contains((dev, ino)),
            final(self).counted() == old(self).counted().insert((dev, ino)),
            final(self).total == (if counted { old(self).total + blocks * 512 } else { old(self).total as int }),
    {
        let mut i: usize = 0;
        while i < self.seen.len()
            invariant
                i <= self.seen@.len(),
                forall|k: int| 0 <= k < i ==> self.seen@[k] != (dev, ino),
            decreases self.seen@.len() - i,
        {
            if self.seen[i].0 == dev && self.seen[i].1 == ino {
                proof {
                    assert(self.seen@.to_set().contains(self.seen@[i as int]));
                    assert(self.seen@.to_set().insert((dev, ino)) =~= self.seen@.to_set());
                }
                return false;
            }
            i = i + 1;
        }
        let ghost before = self.seen@;
        assert(!before.to_set().contains((dev, ino))) by {
            if before.to_set().contains((dev, ino)) {
                let k = choose|k: int| 0 <= k < before.len() && before[k] == (dev, ino);
                assert(before[k] != (dev, ino));
            }
        }
        self.seen.push((dev, ino));
        assert(self.seen@ =~= before.push((dev, ino)));
        proof {
            vstd::seq_lib::lemma_seq_contains_after_push(before, (dev, ino), (dev, ino));
            assert forall|x: (u64, u64)| self.seen@.to_set().contains(x) == before.to_set().insert((dev, ino)).contains(x) by {
                if self.seen@.contains(x) && x != (dev, ino) {
                    let k = choose|k: int| 0 <= k < self.seen@.len() && self.seen@[k] == x;
                    assert(k < before.len());
                    assert(before[k] == x);
                }
                if before.contains(x) {
                    let k = choose|k: int| 0 <= k < before.len() && before[k] == x;
                    assert(self.seen@[k] == x);
                }
                if x == (dev, ino) {
                    assert(self.seen@[before.len() as int] == x);
                }
            }
            assert(self.seen@.to_set() =~= before.to_set().insert((dev, ino)));
        }
        self.total = self.total + blocks * 512;
        true
    }
}

/// What `lstat` says of a path met while sizing the module files.
#[derive(Debug, Clone)]
pub enum SizeProbe {
    /// A regular file: its device, inode and 512-byte blocks.
    File { dev: u64, ino: u64, blocks: u64 },
    /// A directory, with the paths of its entries (none when it could not
    /// be read).
    Dir(Vec<String>),
    /// A symbolic link, or another kind of entry: not counted.
    Skip,
    /// The path is gone, or is a loop of links: not counted.
    Missing,
    /// `lstat` failed otherwise.
    Failed(String),
}

/// The paths of `paths` whose `exists` flag is set, in order.
pub open spec fn existing_paths(paths: Seq<Seq<char>>, exists: Seq<bool>) -> Seq<Seq<char>>
    decreases paths.len(),
{
    if paths.len() == 0 || exists.len() == 0 {
        Seq::empty()
    } else {
        let prev = existing_paths(paths.drop_last(), exists.drop_last());
        if exists.last() {
            prev.push(paths.last())
        } else {
            prev
        }
    }
}

/// The sizing of the module files: the paths still to look at, last one
/// first, and the tally so far.
#[derive(Debug)]
pub struct SizeWalk {
    pub stack: Vec<String>,
    pub tally: SizeTally,
}

impl SizeWalk {
    /// A walk over the `sources` that exist (`exists`, in the same order).
    pub fn new(sources: &Vec<String>, exists: &Vec<bool>) -> (r: Self)
        requires
            sources@.len() == exists@.len(),
        ensures
            crate::strset::string_views(r.stack@) == existing_paths(crate::strset::string_views(sources@), exists@),
            r.tally.total == 0,
            r.tally.counted() == Set::<(u64, u64)>::empty(),
    {
        let ghost sv = crate::strset::string_views(sources@);
        let mut stack: Vec<String> = Vec::new();
        let mut i: usize = 0;
        while i < sources.len()
            invariant
                i <= sources@.len(),
                sources@.len() == exists@.len(),
                sv == crate::strset::string_views(sources@),
                crate::strset::string_views(stack@) == existing_paths(sv.take(i as int), exists@.take(i as int)),
            decreases sources@.len() - i,
        {
            assert(sv.take(i + 1).drop_last() =~= sv.take(i as int));
            assert(exists@.take(i + 1).drop_last() =~= exists@.take(i as int));
            if exists[i] {
                let ghost before = crate::strset::string_views(stack@);
                stack.push(sources[i].clone());
                assert(crate::strset::string_views(stack@) =~= before.push(sv[i as int]));
            }
            i = i + 1;
        }
        assert(sv.take(sources@.len() as int) =~= sv);
        assert(exists@.take(sources@.len() as int) =~= exists@);
        SizeWalk { stack, tally: SizeTally::new() }
    }

    /// The path to look at next, if any is left.
    pub fn next_path(&self) -> (r: Option<&String>)
        ensures
            self.stack@.len() == 0 ==> r is None,
            self.stack@.len() > 0 ==> (r matches Some(p) && *p == self.stack@.last()),
    {
        if self.stack.len() == 0 {
            None
        } else {
            Some(&self.stack[self.stack.len() - 1])
        }
    }

    /// Takes what `lstat` said of the next path: a file is counted unless
    /// its device and inode were, a directory's entries are looked at next,
    /// other entries are passed over; an `lstat` failure ends the sizing.
    pub fn record(&mut self, probe: SizeProbe) -> (r: Result<(), String>)
        requires
            old(self).stack@.len() > 0,
            probe matches SizeProbe::File { blocks, .. } ==> old(self).tally.total + blocks * 512 <= u64::MAX,
        ensures
            match probe {
                SizeProbe::File { dev, ino, blocks } => {
                    &&& r is Ok
                    &&& final(self).stack@ == old(self).stack@.drop_last()
                    &&& final(self).tally.counted() == old(self).tally.counted().insert((dev, ino))
                    &&& final(self).tally.total == (if old(self).tally.counted().contains((dev, ino)) {
                        old(self).tally.total as int
                    } else {
                        old(self).tally.total + blocks * 512
                    })
                },
                SizeProbe::Dir(children) => {
                    &&& r is Ok
                    &&& final(self).stack@ == old(self).stack@.drop_last() + children@
                    &&& final(self).tally == old(self).tally
                },
                SizeProbe::Skip | SizeProbe::Missing => {
                    &&& r is Ok
                    &&& final(self).stack@ == old(self).stack@.drop_last()
                    &&& final(self).tally == old(self).tally
                },
                SizeProbe::Failed(e) => {
                    &&& r == Err::<(), String>(e)
                    &&& final(self).tally == old(self).tally
                },
            },
    {
        let _ = self.stack.pop();
        match probe {
            SizeProbe::File { dev, ino, blocks } => {
                let _ = self.tally.add_file(dev, ino, blocks);
                Ok(())
            },
            SizeProbe::Dir(children) => {
                let mut children = children;
                self.stack.append(&mut children);
                Ok(())
            },
            SizeProbe::Skip => Ok(()),
            SizeProbe::Missing => Ok(()),
            SizeProbe::Failed(e) => Err(e),
        }
    }
}

} // verus!
