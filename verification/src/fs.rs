//! The kernel's two simple filesystems above the ATA layer: a fully
//! in-memory RAM-disk filesystem, verified end to end including the
//! read-after-write round trip, and a sector-granular filesystem whose disk
//! traffic is returned as explicit sector operations for the machine to
//! perform.

use crate::ata::{AtaError, SectorWrite, chars_lt, lemma_chars_lt_connected, lemma_chars_lt_transitive, name_lt};
use vstd::prelude::*;
use vstd::string::StringExecFns;

verus! {

/// Sectors of the RAM disk.
pub const RAM_TOTAL_SECTORS: usize = 1024;

/// Bytes per RAM-disk sector.
pub const RAM_BYTES_PER_SECTOR: usize = 512;

/// Sectors per RAM-disk cluster.
pub const RAM_SECTORS_PER_CLUSTER: usize = 8;

/// Bytes per RAM-disk cluster.
pub const RAM_CLUSTER_SIZE: usize = 4096;

/// The RAM disk's geometry, fixed at creation.
#[derive(Debug)]
pub struct RamSuperBlock {
    pub bytes_per_sector: usize,
    pub sectors_per_cluster: usize,
    pub total_sectors: usize,
}

impl RamSuperBlock {
    /// The fixed geometry: 1024 sectors of 512 bytes, eight sectors per
    /// cluster.
    pub fn new() -> (r: RamSuperBlock)
        ensures
            r.bytes_per_sector == RAM_BYTES_PER_SECTOR,
            r.sectors_per_cluster == RAM_SECTORS_PER_CLUSTER,
            r.total_sectors == RAM_TOTAL_SECTORS,
    {
        RamSuperBlock {
            bytes_per_sector: RAM_BYTES_PER_SECTOR,
            sectors_per_cluster: RAM_SECTORS_PER_CLUSTER,
            total_sectors: RAM_TOTAL_SECTORS,
        }
    }

    /// Bytes per cluster.
    pub fn cluster_size(&self) -> (r: usize)
        requires
            self.bytes_per_sector * self.sectors_per_cluster <= usize::MAX,
        ensures
            r == self.bytes_per_sector * self.sectors_per_cluster,
    {
        self.bytes_per_sector * self.sectors_per_cluster
    }
}

/// One RAM-disk directory entry.
#[derive(Debug)]
pub struct RamDirEntry {
    pub name: String,
    pub start_cluster: usize,
    pub size: usize,
}

/// How many clusters a RAM-disk file of `len` bytes occupies.
pub open spec fn ram_clusters_for(len: int) -> int {
    (len + RAM_CLUSTER_SIZE - 1) / (RAM_CLUSTER_SIZE as int)
}

/// Whether some RAM-disk directory entry carries this name.
pub open spec fn ram_contains_name(dir: Seq<RamDirEntry>, name: Seq<char>) -> bool {
    exists|i: int| 0 <= i < dir.len() && dir[i].name@ == name
}

/// The bytes of the file a directory entry describes.
pub open spec fn ram_file_content(disk: Seq<u8>, e: RamDirEntry) -> Seq<u8> {
    disk.subrange(
        e.start_cluster * RAM_CLUSTER_SIZE,
        e.start_cluster * RAM_CLUSTER_SIZE + e.size,
    )
}

/// A complete in-memory filesystem: a byte array standing for the disk, a
/// directory, and a cluster allocation table. Allocation is sequential and
/// clusters are never reused, so each file occupies a contiguous run of
/// clusters linked in the table.
#[derive(Debug)]
pub struct RamDiskFs {
    pub superblock: RamSuperBlock,
    pub disk: Vec<u8>,
    pub dir: Vec<RamDirEntry>,
    pub fat: Vec<Option<usize>>,
    pub next_free_cluster: usize,
}

impl RamDiskFs {
    /// Well-formedness: fixed geometry, distinct names, and each file a
    /// contiguous chain below the allocation mark, its clusters linked in
    /// order and its last cluster marked as an end.
    pub open spec fn wf(&self) -> bool {
        &&& self.superblock.bytes_per_sector == RAM_BYTES_PER_SECTOR
        &&& self.superblock.sectors_per_cluster == RAM_SECTORS_PER_CLUSTER
        &&& self.disk@.len() == RAM_TOTAL_SECTORS * RAM_BYTES_PER_SECTOR
        &&& self.fat@.len() == RAM_TOTAL_SECTORS
        &&& 1 <= self.next_free_cluster
        &&& self.next_free_cluster * RAM_CLUSTER_SIZE <= self.disk@.len()
        &&& forall|i: int, j: int|
            0 <= i < j < self.dir@.len() ==> self.dir@[i].name@ != self.dir@[j].name@
        &&& forall|i: int|
            0 <= i < self.dir@.len() ==> {
                let e = #[trigger] self.dir@[i];
                let k = ram_clusters_for(e.size as int);
                &&& e.size > 0
                &&& 1 <= e.start_cluster
                &&& e.start_cluster + k <= self.next_free_cluster
                &&& forall|c: int|
                    0 <= c < k - 1 ==> (#[trigger] self.fat@[e.start_cluster + c]) == Some(
                        (e.start_cluster + c + 1) as usize,
                    )
                &&& self.fat@[e.start_cluster + k - 1] is None
            }
    }

    /// A fresh RAM disk: zeroed storage, empty directory, cluster zero
    /// reserved.
    pub fn new() -> (r: RamDiskFs)
        ensures
            r.wf(),
            r.dir@.len() == 0,
            r.next_free_cluster == 1,
            forall|i: int| 0 <= i < r.disk@.len() ==> r.disk@[i] == 0u8,
    {
        let superblock = RamSuperBlock::new();
        let disk: Vec<u8> = vec![0u8; RAM_TOTAL_SECTORS * RAM_BYTES_PER_SECTOR];
        let fat: Vec<Option<usize>> = vec![None; RAM_TOTAL_SECTORS];
        RamDiskFs { superblock, disk, dir: Vec::new(), fat, next_free_cluster: 1 }
    }

    /// Hand out the next cluster.
    pub fn alloc_cluster(&mut self) -> (r: usize)
        requires
            old(self).next_free_cluster < usize::MAX,
        ensures
            r == old(self).next_free_cluster,
            final(self).next_free_cluster == old(self).next_free_cluster + 1,
            final(self).disk == old(self).disk,
            final(self).dir == old(self).dir,
            final(self).fat == old(self).fat,
            final(self).superblock == old(self).superblock,
    {
        let c = self.next_free_cluster;
        self.next_free_cluster = self.next_free_cluster + 1;
        c
    }

    /// A cluster's byte offset in the disk.
    pub fn cluster_offset(&self, cluster: usize) -> (r: usize)
        requires
            self.superblock.bytes_per_sector * self.superblock.sectors_per_cluster <= usize::MAX,
            cluster * self.superblock.bytes_per_sector * self.superblock.sectors_per_cluster
                <= usize::MAX,
        ensures
            r == cluster * (self.superblock.bytes_per_sector
                * self.superblock.sectors_per_cluster),
    {
        proof {
            vstd::arithmetic::mul::lemma_mul_is_associative(
                cluster as int,
                self.superblock.bytes_per_sector as int,
                self.superblock.sectors_per_cluster as int,
            );
        }
        cluster * self.cluster_size_inner()
    }

    fn cluster_size_inner(&self) -> (r: usize)
        requires
            self.superblock.bytes_per_sector * self.superblock.sectors_per_cluster <= usize::MAX,
        ensures
            r == self.superblock.bytes_per_sector * self.superblock.sectors_per_cluster,
    {
        self.superblock.bytes_per_sector * self.superblock.sectors_per_cluster
    }

    /// Look a name up in the directory.
    fn find(&self, name: &String) -> (r: Option<usize>)
        ensures
            r is Some <==> ram_contains_name(self.dir@, name@),
            r matches Some(i) ==> i < self.dir@.len() && self.dir@[i as int].name@ == name@,
    {
        let mut i: usize = 0;
        while i < self.dir.len()
            invariant
                i <= self.dir@.len(),
                forall|j: int| 0 <= j < i ==> self.dir@[j].name@ != name@,
            decreases self.dir@.len() - i,
        {
            if self.dir[i].name.eq(name) {
                return Some(i);
            }
            i = i + 1;
        }
        None
    }

    /// Store a file: allocate a contiguous run of clusters, link them, copy
    /// the data into the disk, and record the directory entry (replacing an
    /// entry that already carried the name, so a second store under one
    /// name replaces the first). Afterwards the file reads back exactly as
    /// the data written.
    pub fn create_file(&mut self, name: &String, data: &[u8])
        requires
            old(self).wf(),
            data@.len() > 0,
            data@.len() + RAM_CLUSTER_SIZE <= usize::MAX,
            (old(self).next_free_cluster + ram_clusters_for(data@.len() as int))
                * RAM_CLUSTER_SIZE <= old(self).disk@.len(),
        ensures
            final(self).wf(),
            ram_contains_name(final(self).dir@, name@),
            forall|n: Seq<char>|
                n != name@ ==> (ram_contains_name(final(self).dir@, n) <==> ram_contains_name(
                    old(self).dir@,
                    n,
                )),
            exists|i: int|
                0 <= i < final(self).dir@.len() && (#[trigger] final(self).dir@[i]).name@ == name@
                    && final(self).dir@[i].size == data@.len() && ram_file_content(
                    final(self).disk@,
                    final(self).dir@[i],
                ) == data@,
    {
        let k_exec: usize = (data.len() + (RAM_CLUSTER_SIZE - 1)) / RAM_CLUSTER_SIZE;
        let ghost k = ram_clusters_for(data@.len() as int);
        proof {
            assert(k_exec == k);
            assert(k >= 1) by (nonlinear_arith)
                requires
                    k == (data@.len() + RAM_CLUSTER_SIZE - 1) / (RAM_CLUSTER_SIZE as int),
                    data@.len() > 0,
                    RAM_CLUSTER_SIZE == 4096,
            ;
            assert(data@.len() <= k * RAM_CLUSTER_SIZE) by (nonlinear_arith)
                requires
                    k == (data@.len() + RAM_CLUSTER_SIZE - 1) / (RAM_CLUSTER_SIZE as int),
                    data@.len() > 0,
                    RAM_CLUSTER_SIZE == 4096,
            ;
        }
        let start = self.next_free_cluster;
        // link the contiguous run in the allocation table
        let mut i: usize = 0;
        while i < k_exec
            invariant
                old(self).wf(),
                k_exec == k,
                1 <= k,
                i <= k,
                start == old(self).next_free_cluster,
                (start + k) * RAM_CLUSTER_SIZE <= old(self).disk@.len(),
                old(self).disk@.len() == RAM_TOTAL_SECTORS * RAM_BYTES_PER_SECTOR,
                self.next_free_cluster == start + i,
                self.fat@.len() == old(self).fat@.len(),
                self.disk == old(self).disk,
                self.dir == old(self).dir,
                self.superblock == old(self).superblock,
                forall|c: int|
                    0 <= c < self.fat@.len() && !(start <= c < start + i) ==> self.fat@[c] == old(self).fat@[c],
                forall|c: int|
                    0 <= c < i - 1 ==> (#[trigger] self.fat@[start + c]) == Some(
                        (start + c + 1) as usize,
                    ),
                i > 0 ==> self.fat@[start + i - 1] is None,
            decreases k - i,
        {
            let cluster = self.alloc_cluster();
            proof {
                assert(cluster == start + i);
                assert((start + k) * RAM_CLUSTER_SIZE <= self.disk@.len());
                assert(start + i < RAM_TOTAL_SECTORS) by (nonlinear_arith)
                    requires
                        (start + k) * RAM_CLUSTER_SIZE <= RAM_TOTAL_SECTORS * RAM_BYTES_PER_SECTOR,
                        i < k,
                        RAM_CLUSTER_SIZE == 4096,
                        RAM_BYTES_PER_SECTOR == 512,
                        RAM_TOTAL_SECTORS == 1024,
                        start >= 0,
                ;
            }
            let ghost fat_before = self.fat@;
            if i > 0 {
                self.fat[cluster - 1] = Some(cluster);
            }
            self.fat[cluster] = None;
            proof {
                assert forall|c: int|
                    0 <= c < self.fat@.len() && !(start <= c < start + i + 1) implies self.fat@[c]
                    == old(self).fat@[c] by {
                    assert(self.fat@[c] == fat_before[c]);
                }
            }
            i = i + 1;
        }
        // copy the data into the contiguous byte region
        let ghost fat1 = self.fat@;
        let offset = start * RAM_CLUSTER_SIZE;
        proof {
            assert(offset + data@.len() <= self.disk@.len()) by (nonlinear_arith)
                requires
                    offset == start * RAM_CLUSTER_SIZE,
                    (start + k) * RAM_CLUSTER_SIZE <= self.disk@.len(),
                    data@.len() <= k * RAM_CLUSTER_SIZE,
                    RAM_CLUSTER_SIZE == 4096,
            ;
        }
        let mut j: usize = 0;
        let n = data.len();
        while j < n
            invariant
                n == data@.len(),
                offset + n <= self.disk@.len(),
                j <= n,
                self.disk@.len() == old(self).disk@.len(),
                self.disk@.len() == RAM_TOTAL_SECTORS * RAM_BYTES_PER_SECTOR,
                self.dir == old(self).dir,
                self.superblock == old(self).superblock,
                self.fat@ == fat1,
                self.next_free_cluster == start + k,
                forall|c: int| 0 <= c < offset ==> self.disk@[c] == old(self).disk@[c],
                forall|c: int|
                    offset + n <= c < self.disk@.len() ==> self.disk@[c] == old(self).disk@[c],
                forall|c: int| 0 <= c < j ==> self.disk@[offset + c] == data@[c],
                forall|c: int|
                    offset + j <= c < offset + n ==> self.disk@[c] == old(self).disk@[c],
            decreases n - j,
        {
            self.disk[offset + j] = data[j];
            j = j + 1;
        }
        // record the directory entry, replacing a same-named one
        let entry = RamDirEntry { name: name.clone(), start_cluster: start, size: n };
        let ghost dir0 = self.dir@;
        match self.find(name) {
            Some(at) => {
                self.dir[at] = entry;
                proof {
                    assert(self.dir@ == dir0.update(at as int, self.dir@[at as int]));
                }
            },
            None => {
                self.dir.push(entry);
            },
        }
        proof {
            let fdir = self.dir@;
            let new_i: int = if ram_contains_name(dir0, name@) {
                choose|at: int| 0 <= at < dir0.len() && dir0[at].name@ == name@
            } else {
                dir0.len() as int
            };
            assert(fdir[new_i].name@ == name@ && fdir[new_i].size == n && fdir[new_i].start_cluster
                == start);
            assert forall|a: int, b: int| 0 <= a < b < fdir.len() implies fdir[a].name@
                != fdir[b].name@ by {
                if a != new_i && b != new_i {
                    assert(fdir[a] == dir0[a] && fdir[b] == dir0[b]);
                }
            }
            assert forall|i2: int|
                0 <= i2 < fdir.len() implies {
                let e = #[trigger] fdir[i2];
                let kk = ram_clusters_for(e.size as int);
                &&& e.size > 0
                &&& 1 <= e.start_cluster
                &&& e.start_cluster + kk <= self.next_free_cluster
                &&& forall|c: int|
                    0 <= c < kk - 1 ==> (#[trigger] self.fat@[e.start_cluster + c]) == Some(
                        (e.start_cluster + c + 1) as usize,
                    )
                &&& self.fat@[e.start_cluster + kk - 1] is None
            } by {
                if i2 == new_i {
                    assert(fdir[i2].start_cluster == start);
                } else {
                    assert(fdir[i2] == dir0[i2]);
                    assert(old(self).wf());
                    assert(old(self).dir@[i2] == dir0[i2]);
                    let e = dir0[i2];
                    let kk = ram_clusters_for(e.size as int);
                    assert(e.start_cluster + kk <= start);
                    assert forall|c: int|
                        0 <= c < kk - 1 implies (#[trigger] self.fat@[e.start_cluster + c]) == Some(
                        (e.start_cluster + c + 1) as usize,
                    ) by {
                        assert(self.fat@[e.start_cluster + c] == old(self).fat@[e.start_cluster
                            + c]);
                    }
                    assert(self.fat@[e.start_cluster + kk - 1] == old(self).fat@[e.start_cluster
                        + kk - 1]);
                }
            }
            assert(ram_file_content(self.disk@, fdir[new_i]) =~= data@);
            assert forall|nm: Seq<char>|
                nm != name@ implies (ram_contains_name(fdir, nm) <==> ram_contains_name(
                dir0,
                nm,
            )) by {
                if ram_contains_name(fdir, nm) {
                    let ii = choose|ii: int| 0 <= ii < fdir.len() && fdir[ii].name@ == nm;
                    assert(ii != new_i);
                    assert(dir0[ii].name@ == nm);
                }
                if ram_contains_name(dir0, nm) {
                    let ii = choose|ii: int| 0 <= ii < dir0.len() && dir0[ii].name@ == nm;
                    assert(ii != new_i);
                    assert(fdir[ii].name@ == nm);
                }
            }
        }
    }

    /// Read a file back: follow the cluster chain, taking whole clusters
    /// while the chain continues and the remaining bytes from the last.
    /// Returns exactly the bytes the file holds, or nothing for an unknown
    /// name.
    pub fn read_file(&self, name: &String) -> (r: Option<Vec<u8>>)
        requires
            self.wf(),
        ensures
            r is Some <==> ram_contains_name(self.dir@, name@),
            r matches Some(v) ==> exists|i: int|
                0 <= i < self.dir@.len() && (#[trigger] self.dir@[i]).name@ == name@ && v@
                    == ram_file_content(self.disk@, self.dir@[i]),
    {
        let at = match self.find(name) {
            None => {
                return None;
            },
            Some(i) => i,
        };
        let size = self.dir[at].size;
        let start = self.dir[at].start_cluster;
        let ghost e = self.dir@[at as int];
        let ghost k = ram_clusters_for(size as int);
        let ghost off = e.start_cluster * RAM_CLUSTER_SIZE;
        proof {
            assert(k >= 1 && size <= k * RAM_CLUSTER_SIZE && (size as int) > (k - 1)
                * RAM_CLUSTER_SIZE) by (nonlinear_arith)
                requires
                    k == (size + RAM_CLUSTER_SIZE - 1) / (RAM_CLUSTER_SIZE as int),
                    size > 0,
                    RAM_CLUSTER_SIZE == 4096,
            ;
            assert((start as int + k) * RAM_CLUSTER_SIZE <= self.disk@.len()
                && off + size <= self.disk@.len()) by (nonlinear_arith)
                requires
                    start == e.start_cluster,
                    off == e.start_cluster * RAM_CLUSTER_SIZE,
                    e.start_cluster + k <= self.next_free_cluster,
                    self.next_free_cluster * RAM_CLUSTER_SIZE <= self.disk@.len(),
                    size <= k * RAM_CLUSTER_SIZE,
                    RAM_CLUSTER_SIZE == 4096,
            ;
        }
        let mut data: Vec<u8> = Vec::new();
        let mut t: usize = 0;
        let mut cluster: usize = start;
        let full = self.sub_one(size);
        while t < full
            invariant
                self.wf(),
                e == self.dir@[at as int],
                at < self.dir@.len(),
                k == ram_clusters_for(size as int),
                size == e.size,
                start == e.start_cluster,
                size > 0,
                size <= k * RAM_CLUSTER_SIZE,
                (size as int) > (k - 1) * RAM_CLUSTER_SIZE,
                off == start * RAM_CLUSTER_SIZE,
                off + size <= self.disk@.len(),
                (start as int + k) * RAM_CLUSTER_SIZE <= self.disk@.len(),
                full == k - 1,
                t <= k - 1,
                cluster == start + t,
                data@.len() == t * RAM_CLUSTER_SIZE,
                data@ == self.disk@.subrange(off, off + t * RAM_CLUSTER_SIZE),
            decreases k - t,
        {
            proof {
                assert(cluster * RAM_CLUSTER_SIZE + RAM_CLUSTER_SIZE <= self.disk@.len())
                    by (nonlinear_arith)
                    requires
                        cluster == start + t,
                        0 <= t < k - 1,
                        (start as int + k) * RAM_CLUSTER_SIZE <= self.disk@.len(),
                        RAM_CLUSTER_SIZE == 4096,
                ;
            }
            let mut b: usize = 0;
            let base = self.mul_cluster(cluster);
            while b < RAM_CLUSTER_SIZE
                invariant
                    self.wf(),
                    b <= RAM_CLUSTER_SIZE,
                    base == cluster * RAM_CLUSTER_SIZE,
                    cluster == start + t,
                    t <= k - 1,
                    off == start * RAM_CLUSTER_SIZE,
                    off + size <= self.disk@.len(),
                    base + RAM_CLUSTER_SIZE <= self.disk@.len(),
                    data@.len() == t * RAM_CLUSTER_SIZE + b,
                    data@ == self.disk@.subrange(off, off + t * RAM_CLUSTER_SIZE + b),
                decreases RAM_CLUSTER_SIZE - b,
            {
                let byte = self.disk[base + b];
                data.push(byte);
                proof {
                    assert(base + b == off + t * RAM_CLUSTER_SIZE + b) by (nonlinear_arith)
                        requires
                            base == cluster * RAM_CLUSTER_SIZE,
                            cluster == start + t,
                            off == start * RAM_CLUSTER_SIZE,
                            RAM_CLUSTER_SIZE == 4096,
                    ;
                    assert(data@ =~= self.disk@.subrange(off, off + t * RAM_CLUSTER_SIZE + b + 1));
                }
                b = b + 1;
            }
            cluster = cluster + 1;
            t = t + 1;
            proof {
                assert(t * RAM_CLUSTER_SIZE == (t - 1) * RAM_CLUSTER_SIZE + RAM_CLUSTER_SIZE)
                    by (nonlinear_arith);
            }
        }
        // last cluster: the remaining bytes only
        proof {
            assert(t * RAM_CLUSTER_SIZE < size) by (nonlinear_arith)
                requires
                    t == k - 1,
                    (size as int) > (k - 1) * RAM_CLUSTER_SIZE,
                    RAM_CLUSTER_SIZE == 4096,
            ;
            assert(cluster * RAM_CLUSTER_SIZE + RAM_CLUSTER_SIZE <= self.disk@.len())
                by (nonlinear_arith)
                requires
                    cluster == start + t,
                    0 <= t == k - 1,
                    (start as int + k) * RAM_CLUSTER_SIZE <= self.disk@.len(),
                    RAM_CLUSTER_SIZE == 4096,
            ;
        }
        let remain = size - self.mul_cluster_small(t);
        let base = self.mul_cluster(cluster);
        let mut b: usize = 0;
        while b < remain
            invariant
                self.wf(),
                b <= remain,
                t == k - 1,
                cluster == start + t,
                remain == size - t * RAM_CLUSTER_SIZE,
                base == cluster * RAM_CLUSTER_SIZE,
                base + RAM_CLUSTER_SIZE <= self.disk@.len(),
                off == start * RAM_CLUSTER_SIZE,
                off + size <= self.disk@.len(),
                data@.len() == t * RAM_CLUSTER_SIZE + b,
                data@ == self.disk@.subrange(off, off + t * RAM_CLUSTER_SIZE + b),
            decreases remain - b,
        {
            let byte = self.disk[base + b];
            data.push(byte);
            proof {
                assert(base + b == off + t * RAM_CLUSTER_SIZE + b) by (nonlinear_arith)
                    requires
                        base == cluster * RAM_CLUSTER_SIZE,
                        cluster == start + t,
                        off == start * RAM_CLUSTER_SIZE,
                        RAM_CLUSTER_SIZE == 4096,
                ;
                assert(data@ =~= self.disk@.subrange(off, off + t * RAM_CLUSTER_SIZE + b + 1));
            }
            b = b + 1;
        }
        proof {
            assert(data@ =~= ram_file_content(self.disk@, e));
        }
        Some(data)
    }

    /// How many whole clusters precede the file's last: its cluster count
    /// less one.
    fn sub_one(&self, size: usize) -> (r: usize)
        requires
            size > 0,
            size + RAM_CLUSTER_SIZE <= usize::MAX,
        ensures
            r == self.sub_one_spec(size),
            r == ram_clusters_for(size as int) - 1,
    {
        let k: usize = (size + (RAM_CLUSTER_SIZE - 1)) / RAM_CLUSTER_SIZE;
        proof {
            assert(k >= 1) by (nonlinear_arith)
                requires
                    k == (size + RAM_CLUSTER_SIZE - 1) / (RAM_CLUSTER_SIZE as int),
                    size > 0,
                    RAM_CLUSTER_SIZE == 4096,
            ;
        }
        k - 1
    }

    /// The cluster count less one, as the loops bound it.
    pub open spec fn sub_one_spec(&self, size: usize) -> int {
        ram_clusters_for(size as int) - 1
    }

    fn mul_cluster(&self, cluster: usize) -> (r: usize)
        requires
            cluster * RAM_CLUSTER_SIZE + RAM_CLUSTER_SIZE <= self.disk@.len(),
            self.wf(),
        ensures
            r == cluster * RAM_CLUSTER_SIZE,
    {
        cluster * RAM_CLUSTER_SIZE
    }

    fn mul_cluster_small(&self, t: usize) -> (r: usize)
        requires
            t * RAM_CLUSTER_SIZE <= usize::MAX,
        ensures
            r == t * RAM_CLUSTER_SIZE,
    {
        t * RAM_CLUSTER_SIZE
    }
}

/// Read-after-write: a file just stored reads back byte for byte. The
/// stored entry's content equals the data written, and looking the name up
/// finds exactly that entry, because names are unique.
pub proof fn lemma_ram_round_trip(fs: RamDiskFs, name: Seq<char>, data: Seq<u8>, i: int, j: int)
    requires
        fs.wf(),
        0 <= i < fs.dir@.len(),
        fs.dir@[i].name@ == name,
        ram_file_content(fs.disk@, fs.dir@[i]) == data,
        0 <= j < fs.dir@.len(),
        fs.dir@[j].name@ == name,
    ensures
        j == i,
        ram_file_content(fs.disk@, fs.dir@[j]) == data,
{
}


/// How many sectors a file of `len` bytes occupies.
pub open spec fn sectors_for(len: int) -> int {
    (len + 511) / 512
}

/// One entry of the sector-granular filesystem's directory.
#[derive(Debug)]
pub struct AtaDirEntry {
    pub name: String,
    pub start_sector: u32,
    pub size: u32,
}

/// Whether some entry carries this name.
pub open spec fn ata_contains_name(dir: Seq<AtaDirEntry>, name: Seq<char>) -> bool {
    exists|i: int| 0 <= i < dir.len() && dir[i].name@ == name
}

/// The metadata sector: the signature, then the allocation mark in
/// little-endian, then zeros.
pub open spec fn metadata_bytes(next_free_sector: u32) -> Seq<u8> {
    Seq::new(
        512,
        |i: int|
            if i == 0 {
                0x53u8
            } else if i == 1 {
                0x4Fu8
            } else if i == 2 {
                0x53u8
            } else if i == 3 {
                0x5Fu8
            } else if i == 4 {
                0x46u8
            } else if i == 5 {
                0x53u8
            } else if i == 6 {
                0x30u8
            } else if i == 7 {
                0x31u8
            } else if i == 8 {
                (next_free_sector & 0xFF) as u8
            } else if i == 9 {
                ((next_free_sector >> 8) & 0xFF) as u8
            } else if i == 10 {
                ((next_free_sector >> 16) & 0xFF) as u8
            } else if i == 11 {
                ((next_free_sector >> 24) & 0xFF) as u8
            } else {
                0u8
            },
    )
}

/// The sector-granular filesystem over one ATA device: files live in
/// contiguous sector runs handed out by a simple allocation mark, and the
/// directory is kept in memory with a metadata sector stamped on disk. Every
/// operation returns the sector writes it implies.
#[derive(Debug)]
pub struct AtaFilesystem {
    pub device_id: usize,
    pub fat: Vec<Option<u32>>,
    pub directory: Vec<AtaDirEntry>,
    pub next_free_sector: u32,
}

impl AtaFilesystem {
    /// Well-formedness: the directory sorted ascending by name (as an
    /// ordered map would keep it) with names distinct; every file's sector
    /// run lies past the reserved boot region and below the allocation
    /// mark.
    pub open spec fn wf(&self) -> bool {
        &&& self.next_free_sector >= 100
        &&& forall|i: int, j: int|
            0 <= i < j < self.directory@.len() ==> chars_lt(
                self.directory@[i].name@,
                self.directory@[j].name@,
            )
        &&& forall|i: int, j: int|
            0 <= i < j < self.directory@.len() ==> self.directory@[i].name@
                != self.directory@[j].name@
        &&& forall|i: int|
            0 <= i < self.directory@.len() ==> {
                let e = #[trigger] self.directory@[i];
                &&& e.start_sector >= 100
                &&& e.start_sector + sectors_for(e.size as int) <= self.next_free_sector
            }
    }

    /// An empty filesystem on the given device: allocation starts after the
    /// reserved boot sectors. The machine then probes the metadata sector
    /// and keeps this state or formats.
    pub fn new(device_id: usize) -> (r: AtaFilesystem)
        ensures
            r.wf(),
            r.device_id == device_id,
            r.directory@.len() == 0,
            r.next_free_sector == 100,
    {
        AtaFilesystem { device_id, fat: Vec::new(), directory: Vec::new(), next_free_sector: 100 }
    }

    /// Whether a sector image carries the filesystem's metadata signature.
    pub fn load_metadata(buffer: &[u8]) -> (r: bool)
        requires
            buffer@.len() == 512,
        ensures
            r <==> (buffer@[0] == 0x53 && buffer@[1] == 0x4F && buffer@[2] == 0x53 && buffer@[3]
                == 0x5F && buffer@[4] == 0x46 && buffer@[5] == 0x53 && buffer@[6] == 0x30
                && buffer@[7] == 0x31),
    {
        buffer[0] == 0x53 && buffer[1] == 0x4F && buffer[2] == 0x53 && buffer[3] == 0x5F
            && buffer[4] == 0x46 && buffer[5] == 0x53 && buffer[6] == 0x30 && buffer[7] == 0x31
    }

    /// The metadata write that records the current allocation mark.
    pub fn save_metadata(&self) -> (r: SectorWrite)
        ensures
            r.lba == 1,
            r.data@ == metadata_bytes(self.next_free_sector),
    {
        let mut data: Vec<u8> = vec![0u8; 512];
        data[0] = 0x53;
        data[1] = 0x4F;
        data[2] = 0x53;
        data[3] = 0x5F;
        data[4] = 0x46;
        data[5] = 0x53;
        data[6] = 0x30;
        data[7] = 0x31;
        let nf = self.next_free_sector;
        proof {
            assert(nf & 0xFF <= 0xFF && (nf >> 8) & 0xFF <= 0xFF && (nf >> 16) & 0xFF <= 0xFF && (
            nf >> 24) & 0xFF <= 0xFF) by (bit_vector);
        }
        data[8] = (nf & 0xFF) as u8;
        data[9] = ((nf >> 8) & 0xFF) as u8;
        data[10] = ((nf >> 16) & 0xFF) as u8;
        data[11] = ((nf >> 24) & 0xFF) as u8;
        proof {
            assert(data@ =~= metadata_bytes(nf));
        }
        SectorWrite { lba: 1, data }
    }

    /// Stamp a fresh filesystem's metadata: the same write as
    /// [`AtaFilesystem::save_metadata`], for the machine to perform when no
    /// valid metadata was found.
    pub fn format(&self) -> (r: SectorWrite)
        ensures
            r.lba == 1,
            r.data@ == metadata_bytes(self.next_free_sector),
    {
        self.save_metadata()
    }

    /// Look a name up in the directory.
    fn find(&self, name: &String) -> (r: Option<usize>)
        ensures
            r is Some <==> ata_contains_name(self.directory@, name@),
            r matches Some(i) ==> i < self.directory@.len() && self.directory@[i as int].name@
                == name@,
    {
        let mut i: usize = 0;
        while i < self.directory.len()
            invariant
                i <= self.directory@.len(),
                forall|j: int| 0 <= j < i ==> self.directory@[j].name@ != name@,
            decreases self.directory@.len() - i,
        {
            if self.directory[i].name.eq(name) {
                return Some(i);
            }
            i = i + 1;
        }
        None
    }

    /// Create a file: write its data in sector-sized, zero-padded chunks at
    /// the allocation mark, record the entry (replacing a same-named one,
    /// so a second store under one name replaces the first), advance the mark, and end with
    /// the metadata write.
    pub fn create_file(&mut self, name: &String, data: &[u8]) -> (r: Result<
        Vec<SectorWrite>,
        AtaError,
    >)
        requires
            old(self).wf(),
            data@.len() + 512 <= usize::MAX,
            data@.len() <= u32::MAX,
            old(self).next_free_sector + sectors_for(data@.len() as int) <= u32::MAX,
        ensures
            final(self).wf(),
            r is Ok,
            final(self).next_free_sector == old(self).next_free_sector + sectors_for(
                data@.len() as int,
            ),
            ata_contains_name(final(self).directory@, name@),
            exists|i: int|
                0 <= i < final(self).directory@.len() && (#[trigger] final(self).directory@[i]).name@
                    == name@ && final(self).directory@[i].size == data@.len() && final(self).directory@[i].start_sector == old(self).next_free_sector,
            r matches Ok(writes) ==> ({
                let k = sectors_for(data@.len() as int);
                &&& writes@.len() == k + 1
                &&& forall|i: int|
                    0 <= i < k ==> (#[trigger] writes@[i]).lba == old(self).next_free_sector + i
                &&& forall|i: int|
                    0 <= i < k ==> (#[trigger] writes@[i]).data@.len() == 512
                &&& forall|i: int, j: int|
                    0 <= i < k && 0 <= j < 512 ==> (#[trigger] writes@[i].data@[j]) == (if i * 512
                        + j < data@.len() {
                        data@[i * 512 + j]
                    } else {
                        0u8
                    })
                &&& writes@.last().lba == 1
                &&& writes@.last().data@ == metadata_bytes(final(self).next_free_sector)
            }),
    {
        let ghost k = sectors_for(data@.len() as int);
        let start = self.next_free_sector;
        let mut writes: Vec<SectorWrite> = Vec::new();
        let mut offset: usize = 0;
        let mut produced: u32 = 0;
        while offset < data.len()
            invariant
                old(self).wf(),
                *self == *old(self),
                data@.len() + 512 <= usize::MAX,
                start == old(self).next_free_sector,
                start + k <= u32::MAX,
                k == sectors_for(data@.len() as int),
                offset <= data@.len(),
                produced <= k,
                (offset < data@.len()) ==> offset == produced * 512 && produced < k,
                (offset >= data@.len()) ==> produced == k,
                writes@.len() == produced,
                forall|i: int| 0 <= i < produced ==> (#[trigger] writes@[i]).lba == start + i,
                forall|i: int|
                    0 <= i < produced ==> (#[trigger] writes@[i]).data@.len() == 512,
                forall|i: int, j: int|
                    0 <= i < produced && 0 <= j < 512 ==> (#[trigger] writes@[i].data@[j]) == (if i
                        * 512 + j < data@.len() {
                        data@[i * 512 + j]
                    } else {
                        0u8
                    }),
            decreases data@.len() - offset,
        {
            proof {
                assert(offset == produced * 512 && produced * 512 < data@.len());
                assert((produced + 1) * 512 == produced * 512 + 512);
                assert(produced + 1 <= k) by (nonlinear_arith)
                    requires
                        produced * 512 < data@.len(),
                        k == (data@.len() + 511) as int / 512,
                ;
            }
            let mut sector_buffer: Vec<u8> = vec![0u8; 512];
            let mut j: usize = 0;
            while j < 512 && offset + j < data.len()
                invariant
                    offset <= data@.len(),
                    data@.len() + 512 <= usize::MAX,
                    j <= 512,
                    sector_buffer@.len() == 512,
                    j > 0 ==> offset + j <= data@.len(),
                    forall|c: int| 0 <= c < j ==> sector_buffer@[c] == data@[offset + c],
                    forall|c: int| j <= c < 512 ==> sector_buffer@[c] == 0u8,
                decreases 512 - j,
            {
                sector_buffer[j] = data[offset + j];
                j = j + 1;
            }
            writes.push(SectorWrite { lba: (start + produced) as u64, data: sector_buffer });
            produced = produced + 1;
            if offset + 512 <= data.len() {
                offset = offset + 512;
                proof {
                    if offset >= data@.len() {
                        assert(produced == k) by (nonlinear_arith)
                            requires
                                offset == produced * 512,
                                (produced - 1) * 512 < data@.len(),
                                offset >= data@.len(),
                                produced <= k,
                                k == (data@.len() + 511) as int / 512,
                        ;
                    }
                }
            } else {
                offset = data.len();
                proof {
                    assert(produced == k) by (nonlinear_arith)
                        requires
                            (produced - 1) * 512 < data@.len(),
                            data@.len() < (produced - 1) * 512 + 512,
                            produced <= k,
                            k == (data@.len() + 511) as int / 512,
                    ;
                }
            }
            proof {
                if offset < data@.len() {
                    assert(produced < k) by (nonlinear_arith)
                        requires
                            offset == produced * 512,
                            offset < data@.len(),
                            k == (data@.len() + 511) as int / 512,
                    ;
                }
                assert forall|i: int, j2: int|
                    0 <= i < produced && 0 <= j2 < 512 implies (#[trigger] writes@[i].data@[j2])
                    == (if i * 512 + j2 < data@.len() {
                    data@[i * 512 + j2]
                } else {
                    0u8
                }) by {
                    if i == produced - 1 {
                        assert(writes@[i].data@[j2] == (if (produced - 1) * 512 + j2 < data@.len() {
                            data@[(produced - 1) * 512 + j2]
                        } else {
                            0u8
                        }));
                    }
                }
            }
        }
        let entry = AtaDirEntry { name: name.clone(), start_sector: start, size: data.len() as u32 };
        let ghost dir0 = self.directory@;
        let ghost nf0 = self.next_free_sector;
        let sectors_needed = produced;
        self.next_free_sector = self.next_free_sector + sectors_needed;
        proof {
            assert forall|i2: int|
                0 <= i2 < dir0.len() implies (#[trigger] dir0[i2]).start_sector >= 100 && dir0[i2].start_sector
                + sectors_for(dir0[i2].size as int) <= self.next_free_sector by {
                assert(old(self).directory@[i2] == dir0[i2]);
                assert(old(self).wf());
            }
        }
        match self.find(name) {
            Some(at) => {
                proof {
                    assert(dir0[at as int].name@ == name@);
                    assert forall|j: int|
                        0 <= j < dir0.len() && j != at implies dir0[j].name@ != name@ by {
                        if j < at {
                            assert(dir0[j].name@ != dir0[at as int].name@);
                        } else {
                            assert(dir0[at as int].name@ != dir0[j].name@);
                        }
                    }
                }
                self.directory[at] = entry;
                proof {
                    let p = at as int;
                    let d1 = self.directory@;
                    assert(d1[p].name@ == name@ && d1[p].size == data@.len() && d1[p].start_sector
                        == start);
                    assert forall|a: int, b: int| 0 <= a < b < d1.len() implies chars_lt(
                        d1[a].name@,
                        d1[b].name@,
                    ) && d1[a].name@ != d1[b].name@ by {
                        assert(d1[a].name@ == dir0[a].name@ && d1[b].name@ == dir0[b].name@);
                    }
                    assert forall|i2: int|
                        0 <= i2 < d1.len() implies (#[trigger] d1[i2]).start_sector >= 100
                        && d1[i2].start_sector + sectors_for(d1[i2].size as int)
                        <= self.next_free_sector by {
                        if i2 != p {
                            assert(d1[i2] == dir0[i2]);
                        }
                    }
                }
            },
            None => {
                proof {
                    assert forall|j: int| 0 <= j < dir0.len() implies dir0[j].name@ != name@ by {}
                }
                // keep the directory sorted ascending by name: file the
                // entry before the first name above it
                let mut pos: usize = 0;
                while pos < self.directory.len() && name_lt(&self.directory[pos].name, name)
                    invariant
                        pos <= self.directory@.len(),
                        self.directory@ == dir0,
                        forall|j: int| 0 <= j < pos ==> chars_lt(dir0[j].name@, name@),
                    decreases self.directory@.len() - pos,
                {
                    pos = pos + 1;
                }
                proof {
                    if pos < dir0.len() {
                        lemma_chars_lt_connected(name@, dir0[pos as int].name@);
                        assert(chars_lt(name@, dir0[pos as int].name@));
                    }
                }
                self.directory.insert(pos, entry);
                proof {
                    let p = pos as int;
                    let d1 = self.directory@;
                    assert(d1[p].name@ == name@ && d1[p].size == data@.len() && d1[p].start_sector
                        == start);
                    assert forall|a: int, b: int| 0 <= a < b < d1.len() implies chars_lt(
                        d1[a].name@,
                        d1[b].name@,
                    ) by {
                        let a0: int = if a < p { a } else { a - 1 };
                        let b0: int = if b < p { b } else { b - 1 };
                        if a != p && b != p {
                            assert(d1[a] == dir0[a0] && d1[b] == dir0[b0]);
                        } else if a == p {
                            assert(d1[b] == dir0[b0] && b0 >= p);
                            if b0 > p {
                                assert(chars_lt(dir0[p].name@, dir0[b0].name@));
                                lemma_chars_lt_transitive(name@, dir0[p].name@, dir0[b0].name@);
                            }
                        } else {
                            assert(d1[a] == dir0[a0] && a0 < p);
                            assert(chars_lt(dir0[a0].name@, name@));
                        }
                    }
                    assert forall|a: int, b: int| 0 <= a < b < d1.len() implies d1[a].name@
                        != d1[b].name@ by {
                        lemma_chars_lt_connected(d1[a].name@, d1[b].name@);
                    }
                    assert forall|i2: int|
                        0 <= i2 < d1.len() implies (#[trigger] d1[i2]).start_sector >= 100
                        && d1[i2].start_sector + sectors_for(d1[i2].size as int)
                        <= self.next_free_sector by {
                        if i2 != p {
                            let i0: int = if i2 < p { i2 } else { i2 - 1 };
                            assert(d1[i2] == dir0[i0]);
                        }
                    }
                }
            },
        }
        let meta = self.save_metadata();
        writes.push(meta);
        Ok(writes)
    }

    /// Plan reading a file: its first sector, how many sectors to read, and
    /// how many of the read-back bytes belong to the file — to be stitched
    /// with [`crate::ata::assemble_file`]. An unknown name is refused.
    pub fn read_file(&self, name: &String) -> (r: Result<(u32, u32, usize), AtaError>)
        requires
            self.wf(),
        ensures
            r is Err <==> !ata_contains_name(self.directory@, name@),
            r is Err ==> r == Err::<(u32, u32, usize), AtaError>(AtaError::DeviceNotFound),
            r matches Ok((start, count, size)) ==> exists|i: int|
                0 <= i < self.directory@.len() && (#[trigger] self.directory@[i]).name@ == name@
                    && start == self.directory@[i].start_sector && size == self.directory@[i].size
                    && count == sectors_for(self.directory@[i].size as int),
    {
        let at = match self.find(name) {
            None => {
                return Err(AtaError::DeviceNotFound);
            },
            Some(i) => i,
        };
        let e_size = self.directory[at].size;
        let start = self.directory[at].start_sector;
        proof {
            assert(self.directory@[at as int].start_sector + sectors_for(
                self.directory@[at as int].size as int,
            ) <= self.next_free_sector);
        }
        let count: u32 = ((e_size as u64 + 511) / 512) as u32;
        Ok((start, count, e_size as usize))
    }

    /// Every file in the directory, as `(name, size)` — one pair per
    /// entry, sorted ascending by name, since the directory is kept in that
    /// order.
    pub fn list_files(&self) -> (r: Vec<(String, u32)>)
        ensures
            r@.len() == self.directory@.len(),
            forall|i: int|
                0 <= i < r@.len() ==> (#[trigger] r@[i]).0@ == self.directory@[i].name@ && r@[i].1
                    == self.directory@[i].size,
            self.wf() ==> forall|i: int, j: int|
                0 <= i < j < r@.len() ==> chars_lt(#[trigger] r@[i].0@, #[trigger] r@[j].0@),
    {
        let mut out: Vec<(String, u32)> = Vec::new();
        let mut i: usize = 0;
        while i < self.directory.len()
            invariant
                i <= self.directory@.len(),
                out@.len() == i,
                forall|j: int|
                    0 <= j < i ==> (#[trigger] out@[j]).0@ == self.directory@[j].name@ && out@[j].1
                        == self.directory@[j].size,
            decreases self.directory@.len() - i,
        {
            let e = &self.directory[i];
            out.push((e.name.clone(), e.size));
            i = i + 1;
        }
        out
    }

    /// Delete a file: drop its directory entry (the sectors simply leak, as
    /// nothing reclaims sectors) and rewrite the metadata. An unknown name
    /// is refused.
    pub fn delete_file(&mut self, name: &String) -> (r: Result<SectorWrite, AtaError>)
        requires
            old(self).wf(),
        ensures
            final(self).wf(),
            r is Err <==> !ata_contains_name(old(self).directory@, name@),
            r is Err ==> r == Err::<SectorWrite, AtaError>(AtaError::DeviceNotFound) && final(self).directory == old(self).directory,
            r is Ok ==> ({
                &&& !ata_contains_name(final(self).directory@, name@)
                &&& final(self).directory@.len() == old(self).directory@.len() - 1
                &&& forall|n: Seq<char>|
                    n != name@ ==> (ata_contains_name(final(self).directory@, n)
                        <==> ata_contains_name(old(self).directory@, n))
            }),
            r matches Ok(w) ==> w.lba == 1 && w.data@ == metadata_bytes(final(self).next_free_sector),
    {
        let idx = match self.find(name) {
            None => {
                return Err(AtaError::DeviceNotFound);
            },
            Some(i) => i,
        };
        let ghost dir0 = self.directory@;
        self.directory.remove(idx);
        proof {
            let d1 = self.directory@;
            assert forall|a: int, b: int| 0 <= a < b < d1.len() implies d1[a].name@
                != d1[b].name@ by {
                let a0: int = if a < idx { a } else { a + 1 };
                let b0: int = if b < idx { b } else { b + 1 };
                assert(d1[a] == dir0[a0] && d1[b] == dir0[b0]);
            }
            assert forall|j: int| 0 <= j < d1.len() implies d1[j].name@ != name@ by {
                let j0: int = if j < idx { j } else { j + 1 };
                assert(d1[j] == dir0[j0]);
                if j0 != idx {
                    assert(dir0[j0].name@ != dir0[idx as int].name@);
                }
            }
            assert forall|n: Seq<char>| n != name@ implies (ata_contains_name(d1, n)
                <==> ata_contains_name(dir0, n)) by {
                if ata_contains_name(dir0, n) {
                    let j0 = choose|j0: int| 0 <= j0 < dir0.len() && dir0[j0].name@ == n;
                    let j: int = if j0 < idx { j0 } else { j0 - 1 };
                    assert(j0 != idx);
                    assert(d1[j] == dir0[j0]);
                }
                if ata_contains_name(d1, n) {
                    let j = choose|j: int| 0 <= j < d1.len() && d1[j].name@ == n;
                    let j0: int = if j < idx { j } else { j + 1 };
                    assert(d1[j] == dir0[j0]);
                }
            }
            assert forall|i: int|
                0 <= i < d1.len() implies {
                let e = #[trigger] d1[i];
                &&& e.start_sector >= 100
                &&& e.start_sector + sectors_for(e.size as int) <= self.next_free_sector
            } by {
                let i0: int = if i < idx { i } else { i + 1 };
                assert(d1[i] == dir0[i0]);
            }
        }
        Ok(self.save_metadata())
    }
}
} // verus!
