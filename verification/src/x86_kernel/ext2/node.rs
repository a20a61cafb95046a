//! Files and folders of an ext2 file system: an inode together with the file
//! system it lives on, and the entries of a folder.
use crate::kernel::vfs::{str_eq, NodeType};
use crate::text::{string_from_utf8, utf8_decode};
use crate::x86_kernel::ext2::fs::Ext2FS;
use crate::x86_kernel::ext2::inode::{
    blocks_readable, blocks_to_read, chunk, data_block, lemma_block_size_facts, lemma_file_read_after_write, min,
    read_bytes_result, whole_direct_write, write_capacity,
};
use crate::x86_kernel::ext2::record::{decode_record, encode_record, lemma_decode_encode_record, widths};
use crate::x86_kernel::ext2::structs::{Ext2DirectoryEntryHeader, Ext2RawInode};
use crate::x86_kernel::vfs::{IFile, Node};
use vstd::prelude::*;
use vstd::string::StringSliceAdditionalSpecFns;

verus! {

/// A parsed directory entry: where it starts, its header's fields and its name.
pub type EntrySpec = (nat, Seq<nat>, Seq<char>);

/// The entries of the directory data `raw` from byte `cur` on. Each entry is
/// an 8-byte header (inode, entry size, name length, type) and the name;
/// entries for inode 0 are skipped. Parsing stops at the end of the data and
/// at an entry that is malformed: cut short, smaller than its header, or
/// whose name is not UTF-8.
pub open spec fn directory_entries(raw: Seq<u8>, cur: nat) -> Seq<EntrySpec>
    decreases raw.len() - cur,
{
    if cur + 8 > raw.len() {
        Seq::empty()
    } else {
        let h = decode_record(raw.subrange(cur as int, cur + 8int), widths(Ext2DirectoryEntryHeader::field_widths()));
        let entry_size = h[1];
        let name_len = h[2];
        if entry_size < 8 {
            Seq::empty()
        } else if h[0] == 0 {
            if cur + entry_size > raw.len() {
                Seq::empty()
            } else {
                directory_entries(raw, cur + entry_size)
            }
        } else if cur + 8 + name_len > raw.len() {
            Seq::empty()
        } else {
            match utf8_decode(raw.subrange(cur + 8int, cur + 8int + name_len)) {
                Some(name) => seq![(cur, h, name)] + if cur + entry_size > raw.len() {
                    Seq::empty()
                } else {
                    directory_entries(raw, cur + entry_size)
                },
                None => Seq::empty(),
            }
        }
    }
}

/// An entry as `get_entries` hands it out, as a parsed entry.
pub open spec fn entry_view(e: (usize, Ext2DirectoryEntryHeader, String)) -> EntrySpec {
    (e.0 as nat, e.1.values(), e.2@)
}

/// A file of an ext2 file system.
pub struct Ext2File<D: IFile> {
    pub inode: Ext2RawInode,
    pub inode_addr: u32,
    pub fs: Ext2FS<D>,
}

/// A folder of an ext2 file system.
pub struct Ext2Folder<D: IFile> {
    pub inode: Ext2RawInode,
    pub inode_addr: u32,
    pub fs: Ext2FS<D>,
}

impl Ext2RawInode {
    /// The inode as a node of the virtual file system, on `fs`: a folder for
    /// type 0x4000, a file for type 0x8000, `None` for any other type.
    pub fn as_vfs_node<D: IFile>(self, fs: Ext2FS<D>, inode_addr: u32) -> (r: Option<Node<Ext2File<D>, Ext2Folder<D>>>)
        ensures
            self.type_and_perm & 0xF000 == 0x4000 ==> r == Some(
                Node::<Ext2File<D>, Ext2Folder<D>>::Folder(Ext2Folder { inode: self, inode_addr, fs }),
            ),
            self.type_and_perm & 0xF000 == 0x8000 ==> r == Some(
                Node::<Ext2File<D>, Ext2Folder<D>>::File(Ext2File { inode: self, inode_addr, fs }),
            ),
            self.type_and_perm & 0xF000 != 0x4000 && self.type_and_perm & 0xF000 != 0x8000 ==> r is None,
    {
        if self.type_and_perm & 0xF000 == 0x4000 {
            return Some(Node::Folder(Ext2Folder { inode: self, inode_addr, fs }));
        }
        if self.type_and_perm & 0xF000 == 0x8000 {
            return Some(Node::File(Ext2File { inode: self, inode_addr, fs }));
        }
        None
    }
}

impl<D: IFile> Ext2File<D> {
    /// The `len` bytes of the file from `offset` on.
    pub fn read(&self, offset: usize, len: usize) -> (r: Option<Vec<u8>>)
        requires
            self.fs.wf(),
            offset + len <= usize::MAX,
        ensures
            offset + len > self.inode.low32_size ==> r is None,
            r matches Some(v) ==> v@ == read_bytes_result(
                self.fs.disk(),
                self.fs.block_size(),
                self.inode,
                offset as nat,
                len as nat,
            ),
    {
        self.inode.read_bytes(offset, len, &self.fs)
    }

    /// Writes `data` into the file from `offset` on; the number of bytes written.
    pub fn write(&mut self, offset: usize, data: &[u8]) -> (r: Option<usize>)
        requires
            old(self).fs.wf(),
            old(self).fs.inode_size() > 0,
            offset + data@.len() <= usize::MAX,
        ensures
            final(self).inode == old(self).inode,
            final(self).fs.sb == old(self).fs.sb,
            offset + data@.len() > old(self).inode.low32_size ==> r is None,
            offset + data@.len() <= old(self).inode.low32_size && data@.len() == 0 ==> r == Some(0usize),
            old(self).fs.is_read_only() && data@.len() > 0 ==> r is None,
            r matches Some(n) ==> n == min(
                data@.len(),
                write_capacity(old(self).fs.block_size(), old(self).fs.inode_size(), offset as nat, data@.len()),
            ),
            r is Some && whole_direct_write(
                old(self).inode,
                old(self).fs.block_size(),
                old(self).fs.inode_size(),
                offset as nat,
                data@.len(),
            ) ==> read_bytes_result(final(self).fs.disk(), final(self).fs.block_size(), final(self).inode, offset as nat, data@.len())
                == data@,
    {
        let r = self.inode.write_bytes(offset, data, &mut self.fs);
        proof {
            if r is Some && whole_direct_write(
                old(self).inode,
                old(self).fs.block_size(),
                old(self).fs.inode_size(),
                offset as nat,
                data@.len(),
            ) {
                lemma_file_read_after_write(self.fs.disk(), self.fs.block_size(), self.inode, offset as nat, data@);
            }
        }
        r
    }

    /// The size of the file.
    pub fn get_size(&self) -> (r: usize)
        ensures
            r == self.inode.low32_size,
    {
        self.inode.get_size()
    }

    /// Changes the size of the file and writes its inode back.
    pub fn resize(&mut self, new_size: usize) -> (r: Option<()>)
        requires
            old(self).fs.wf(),
            old(self).inode_addr >= 1,
        ensures
            final(self).fs.wf(),
            final(self).fs.is_read_only() == old(self).fs.is_read_only(),
            old(self).fs.is_read_only() ==> r is None,
            r is Some ==> final(self).inode.low32_size == new_size as u32,
    {
        match self.inode.resize(new_size, &mut self.fs) {
            Some(()) => {},
            None => return None,
        }
        match self.fs.write_inode(self.inode_addr, &self.inode) {
            Some(()) => {},
            None => return None,
        }
        Some(())
    }
}

impl<D: IFile> Ext2Folder<D> {
    /// The entries of the folder, in the order they are stored (see
    /// [`directory_entries`]); none where its data cannot be read.
    pub fn get_entries(&self) -> (r: Vec<(usize, Ext2DirectoryEntryHeader, String)>)
        requires
            self.fs.wf(),
        ensures
            r@.len() == 0 || r@.map_values(|e: (usize, Ext2DirectoryEntryHeader, String)| entry_view(e))
                == directory_entries(
                read_bytes_result(self.fs.disk(), self.fs.block_size(), self.inode, 0, self.inode.low32_size as nat),
                0,
            ),
    {
        let mut res: Vec<(usize, Ext2DirectoryEntryHeader, String)> = Vec::new();
        let raw_data = match self.inode.read_bytes(0, self.inode.get_size(), &self.fs) {
            Some(v) => v,
            None => return res,
        };
        let ghost raw = raw_data@;
        let len = raw_data.len();
        let mut cur_ind: usize = 0;
        assert(res@.map_values(|e: (usize, Ext2DirectoryEntryHeader, String)| entry_view(e)) =~= Seq::<
            EntrySpec,
        >::empty());
        while cur_ind < len
            invariant
                raw == raw_data@,
                len == raw.len(),
                cur_ind <= len,
                directory_entries(raw, 0) == res@.map_values(
                    |e: (usize, Ext2DirectoryEntryHeader, String)| entry_view(e),
                ) + directory_entries(raw, cur_ind as nat),
            decreases len - cur_ind,
        {
            let ghost before = res@;
            let ghost cur = cur_ind as nat;
            if len - cur_ind < 8 {
                cur_ind = len;
            } else {
                let entry = match Ext2DirectoryEntryHeader::unpack(
                    sub_slice(raw_data.as_slice(), cur_ind, cur_ind + 8).as_slice(),
                ) {
                    Some(e) => e,
                    None => {
                        return res;
                    },
                };
                assert(entry.values()[1] == entry.entry_size as nat);
                assert(entry.values()[0] == entry.inode_addr as nat);
                assert(entry.values()[2] == entry.name_length_low8 as nat);
                let entry_size = entry.entry_size as usize;
                if entry_size < 8 {
                    cur_ind = len;
                } else if entry.inode_addr == 0 {
                    if entry_size > len - cur_ind {
                        cur_ind = len;
                    } else {
                        cur_ind = cur_ind + entry_size;
                    }
                } else {
                    let name_len = entry.name_length_low8 as usize;
                    if name_len > len - cur_ind - 8 {
                        cur_ind = len;
                    } else {
                        match string_from_utf8(
                            sub_slice(raw_data.as_slice(), cur_ind + 8, cur_ind + 8 + name_len).as_slice(),
                        ) {
                            Some(name) => {
                                res.push((cur_ind, entry, name));
                                proof {
                                    assert(res@.map_values(
                                        |e: (usize, Ext2DirectoryEntryHeader, String)| entry_view(e),
                                    ) =~= before.map_values(
                                        |e: (usize, Ext2DirectoryEntryHeader, String)| entry_view(e),
                                    ).push(entry_view(res@.last())));
                                }
                                if entry_size > len - cur_ind {
                                    cur_ind = len;
                                } else {
                                    cur_ind = cur_ind + entry_size;
                                }
                                proof {
                                    let m = before.map_values(
                                        |e: (usize, Ext2DirectoryEntryHeader, String)| entry_view(e),
                                    );
                                    let x = entry_view(res@.last());
                                    assert(directory_entries(raw, cur) == seq![x] + directory_entries(
                                        raw,
                                        cur_ind as nat,
                                    ));
                                    assert(m + (seq![x] + directory_entries(raw, cur_ind as nat)) =~= m.push(x)
                                        + directory_entries(raw, cur_ind as nat));
                                }
                            },
                            None => {
                                cur_ind = len;
                            },
                        }
                    }
                }
            }
        }
        res
    }
}

/// The bytes `b[start..end]`.
fn sub_slice(b: &[u8], start: usize, end: usize) -> (r: Vec<u8>)
    requires
        start <= end <= b@.len(),
    ensures
        r@ == b@.subrange(start as int, end as int),
{
    let mut r: Vec<u8> = Vec::new();
    let mut k: usize = start;
    while k < end
        invariant
            start <= k <= end,
            end <= b@.len(),
            r@ == b@.subrange(start as int, k as int),
        decreases end - k,
    {
        r.push(b[k]);
        assert(r@ =~= b@.subrange(start as int, k + 1));
        k = k + 1;
    }
    r
}

impl<D: IFile> Ext2Folder<D> {
    /// Removes the entry named `child_name` from the folder: the entry before
    /// it grows over it, and the child loses a link; a child left with no
    /// link and no data is freed. `None` where no entry but the first is so
    /// named, the child is left with no link but still holds data, a link
    /// count or entry size would overflow, or a read or write of the device
    /// fails.
    #[verifier::spinoff_prover]
    #[verifier::rlimit(60)]
    pub fn unlink_or_delete_empty_child(&mut self, child_name: &str) -> (r: Option<()>)
        requires
            old(self).fs.wf(),
            old(self).fs.inode_size() > 0,
        ensures
            final(self).inode == old(self).inode,
            final(self).inode_addr == old(self).inode_addr,
            final(self).fs.wf(),
            final(self).fs.extended_sb == old(self).fs.extended_sb,
            final(self).fs.is_read_only() == old(self).fs.is_read_only(),
            old(self).fs.is_read_only() ==> r is None,
            r is Some ==> {
                let es = directory_entries(
                    read_bytes_result(
                        old(self).fs.disk(),
                        old(self).fs.block_size(),
                        old(self).inode,
                        0,
                        old(self).inode.low32_size as nat,
                    ),
                    0,
                );
                exists|k: int|
                    1 <= k < es.len() && es[k].2 == child_name@ && (forall|j: int|
                        0 <= j < k ==> (#[trigger] es[j]).2 != child_name@) && (whole_direct_write(
                        final(self).inode,
                        final(self).fs.block_size(),
                        final(self).fs.inode_size(),
                        0,
                        final(self).inode.low32_size as nat,
                    ) ==> header_grown(
                        read_bytes_result(
                            final(self).fs.disk(),
                            final(self).fs.block_size(),
                            final(self).inode,
                            0,
                            final(self).inode.low32_size as nat,
                        ),
                        es[k - 1].0,
                        es[k - 1].1,
                        es[k].1[1],
                    ))
            },
    {
        let entries = self.get_entries();
        let ghost es = entries@.map_values(|e: (usize, Ext2DirectoryEntryHeader, String)| entry_view(e));
        let n = entries.len();
        let mut k: usize = 0;
        let mut found = false;
        while k < n
            invariant_except_break
                !found,
            invariant
                n == entries@.len(),
                k <= n,
                forall|j: int| 0 <= j < k ==> (#[trigger] entries@[j]).2@ != child_name@,
            ensures
                found ==> k < n && entries@[k as int].2@ == child_name@,
                !found ==> k == n,
            decreases n - k,
        {
            if str_eq(entries[k].2.as_str(), child_name) {
                found = true;
                break;
            }
            k = k + 1;
        }
        if !found || k == 0 {
            return None;
        }
        proof {
            assert(es[k as int].2 == child_name@);
            assert forall|j: int| 0 <= j < k implies (#[trigger] es[j]).2 != child_name@ by {
                assert(es[j] == entry_view(entries@[j]));
            }
        }
        let child_addr = entries[k].1.inode_addr;
        let child_entry_size = entries[k].1.entry_size;
        let last_offset = entries[k - 1].0;
        let mut last_header = entries[k - 1].1;
        if child_addr == 0 {
            return None;
        }
        let mut child_inode = match self.fs.read_inode(child_addr) {
            Some(x) => x,
            None => return None,
        };
        if child_inode.hard_links_to_inode >= 1 {
            child_inode.hard_links_to_inode = child_inode.hard_links_to_inode - 1;
            if child_inode.hard_links_to_inode == 0 {
                if child_inode.get_size() != 0 {
                    return None;
                }
                match self.fs.dealloc_inode(child_addr) {
                    Some(()) => {},
                    None => return None,
                }
            }
        }
        match self.fs.write_inode(child_addr, &child_inode) {
            Some(()) => {},
            None => return None,
        }
        last_header.entry_size = match last_header.entry_size.checked_add(child_entry_size) {
            Some(s) => s,
            None => return None,
        };
        let mut raw = match self.inode.read_bytes(0, self.inode.get_size(), &self.fs) {
            Some(v) => v,
            None => return None,
        };
        if last_offset > raw.len() || raw.len() - last_offset < 8 {
            return None;
        }
        let header_bytes = last_header.pack();
        let raw_len = raw.len();
        let mut i: usize = 0;
        while i < 8
            invariant
                i <= 8,
                header_bytes@.len() == 8,
                raw@.len() == raw_len,
                last_offset + 8 <= raw_len,
                forall|m: int| 0 <= m < i ==> #[trigger] raw@[last_offset + m] == header_bytes@[m],
            decreases 8 - i,
        {
            raw.set(last_offset + i, header_bytes[i]);
            i = i + 1;
        }
        assert(0 + raw@.len() <= usize::MAX);
        assert(raw@.subrange(last_offset as int, last_offset + 8) == header_bytes@) by {
            assert forall|m: int| 0 <= m < 8 implies #[trigger] raw@.subrange(last_offset as int, last_offset + 8)[m]
                == header_bytes@[m] by {
                assert(raw@[last_offset + m] == header_bytes@[m]);
            }
            assert(raw@.subrange(last_offset as int, last_offset + 8) =~= header_bytes@);
        }
        let ghost hdr = last_header;
        let written = match self.inode.write_bytes(0, raw.as_slice(), &mut self.fs) {
            Some(w) => w,
            None => return None,
        };
        if written != raw.len() {
            return None;
        }
        proof {
            let ki = k as int;
            let content = read_bytes_result(
                self.fs.disk(),
                self.fs.block_size(),
                self.inode,
                0,
                self.inode.low32_size as nat,
            );
            assert(whole_direct_write(self.inode, self.fs.block_size(), self.fs.inode_size(), 0, self.inode.low32_size as nat)
                ==> header_grown(content, es[ki - 1].0, es[ki - 1].1, es[ki].1[1])) by {
                lemma_header_reads_back(self.fs.disk(), self.fs.block_size(), self.fs.inode_size(), self.inode, raw@, last_offset as int, hdr);
                assert(es[ki - 1] == entry_view(entries@[ki - 1]));
                assert(es[ki] == entry_view(entries@[ki]));
                assert(hdr.values() =~= es[ki - 1].1.update(1, es[ki - 1].1[1] + es[ki].1[1]));
            }
        }
        Some(())
    }
}

/// The type and permissions of a new inode of type `typ`: every permission.
pub open spec fn new_inode_mode(typ: NodeType) -> u16 {
    match typ {
        NodeType::File => 0x81FF,
        NodeType::Folder => 0x41FF,
    }
}

/// `v` cut or filled up with zeros to `len` bytes.
fn resized(v: &Vec<u8>, len: usize) -> (r: Vec<u8>)
    ensures
        r@.len() == len,
        forall|i: int| 0 <= i < len ==> #[trigger] r@[i] == if i < v@.len() { v@[i] } else { 0u8 },
{
    let mut r: Vec<u8> = Vec::new();
    let mut i: usize = 0;
    while i < len
        invariant
            i <= len,
            r@.len() == i,
            forall|k: int| 0 <= k < i ==> #[trigger] r@[k] == if k < v@.len() { v@[k] } else { 0u8 },
        decreases len - i,
    {
        if i < v.len() {
            r.push(v[i]);
        } else {
            r.push(0);
        }
        i = i + 1;
    }
    r
}

/// Copies `src` into `dst` from `at` on.
fn put_bytes(dst: &mut Vec<u8>, at: usize, src: &[u8])
    requires
        at + src@.len() <= old(dst)@.len(),
    ensures
        final(dst)@.len() == old(dst)@.len(),
        final(dst)@.subrange(at as int, at + src@.len()) == src@,
        forall|k: int| 0 <= k < old(dst)@.len() && !(at <= k < at + src@.len()) ==> #[trigger] final(dst)@[k] == old(dst)@[k],
{
    let n = src.len();
    let dl = dst.len();
    let mut i: usize = 0;
    while i < n
        invariant
            i <= n,
            n == src@.len(),
            at + n <= dl,
            dl == old(dst)@.len(),
            dst@.len() == old(dst)@.len(),
            forall|k: int| 0 <= k < i ==> #[trigger] dst@[at + k] == src@[k],
            forall|k: int| 0 <= k < dl && !(at <= k < at + i) ==> #[trigger] dst@[k] == old(dst)@[k],
        decreases n - i,
    {
        dst.set(at + i, src[i]);
        i = i + 1;
    }
    assert forall|k: int| 0 <= k < n implies #[trigger] dst@.subrange(at as int, at + n)[k] == src@[k] by {
        assert(dst@[at + k] == src@[k]);
    }
    assert(dst@.subrange(at as int, at + n) =~= src@);
}

/// Whether the directory bytes `content` hold at `off` the header `h` with
/// its entry size grown by `by`: the entry now reaches over the next one.
pub open spec fn header_grown(content: Seq<u8>, off: nat, h: Seq<nat>, by: nat) -> bool {
    &&& off + 8 <= content.len()
    &&& decode_record(content.subrange(off as int, off + 8int), widths(Ext2DirectoryEntryHeader::field_widths()))
        == h.update(1, h[1] + by)
}

/// A header written at `at` into the directory image `data` reads back where
/// the folder reads back as `data`: after a write in whole direct blocks.
proof fn lemma_header_reads_back(
    disk: Seq<u8>,
    bs: nat,
    isz: nat,
    inode: Ext2RawInode,
    data: Seq<u8>,
    at: int,
    hdr: Ext2DirectoryEntryHeader,
)
    requires
        data.len() == inode.low32_size,
        0 <= at,
        at + 8 <= data.len(),
        data.subrange(at, at + 8) == encode_record(hdr.values(), widths(Ext2DirectoryEntryHeader::field_widths())),
        whole_direct_write(inode, bs, isz, 0, data.len()) ==> forall|k: nat|
            k < data.len() / bs ==> #[trigger] data_block(disk, bs, inode, 0nat / bs + k) == Some(chunk(data, bs, k)),
    ensures
        whole_direct_write(inode, bs, isz, 0, inode.low32_size as nat) ==> {
            let content = read_bytes_result(disk, bs, inode, 0, inode.low32_size as nat);
            decode_record(content.subrange(at, at + 8), widths(Ext2DirectoryEntryHeader::field_widths())) == hdr.values()
                && at + 8 <= content.len()
        },
{
    if whole_direct_write(inode, bs, isz, 0, inode.low32_size as nat) {
        lemma_file_read_after_write(disk, bs, inode, 0, data);
        hdr.lemma_fits();
        lemma_decode_encode_record(hdr.values(), widths(Ext2DirectoryEntryHeader::field_widths()));
    }
}

/// The entry that a new directory image `data` holds at `at` (its header
/// `hdr`, then the bytes of its name) is found again where the folder reads
/// back as `data`: after a write in whole direct blocks.
proof fn lemma_new_entry_reads_back(
    disk: Seq<u8>,
    bs: nat,
    isz: nat,
    inode: Ext2RawInode,
    data: Seq<u8>,
    at: int,
    hdr: Ext2DirectoryEntryHeader,
    name: Seq<char>,
    name_bytes: Seq<u8>,
)
    requires
        data.len() == inode.low32_size,
        0 <= at,
        at + 8 + name_bytes.len() <= data.len(),
        data.subrange(at, at + 8) == encode_record(hdr.values(), widths(Ext2DirectoryEntryHeader::field_widths())),
        data.subrange(at + 8, at + 8 + name_bytes.len()) == name_bytes,
        whole_direct_write(inode, bs, isz, 0, data.len()) ==> forall|k: nat|
            k < data.len() / bs ==> #[trigger] data_block(disk, bs, inode, 0nat / bs + k) == Some(chunk(data, bs, k)),
    ensures
        whole_direct_write(inode, bs, isz, 0, inode.low32_size as nat) ==> {
            let content = read_bytes_result(disk, bs, inode, 0, inode.low32_size as nat);
            exists|off: int|
                0 <= off && off + 8 + name_bytes.len() <= content.len() && #[trigger] decode_record(
                    content.subrange(off, off + 8),
                    widths(Ext2DirectoryEntryHeader::field_widths()),
                )[0] == hdr.inode_addr && content.subrange(off + 8, off + 8 + name_bytes.len()) == name_bytes
        },
{
    if whole_direct_write(inode, bs, isz, 0, inode.low32_size as nat) {
        lemma_file_read_after_write(disk, bs, inode, 0, data);
        let content = read_bytes_result(disk, bs, inode, 0, inode.low32_size as nat);
        assert(content == data);
        hdr.lemma_fits();
        lemma_decode_encode_record(hdr.values(), widths(Ext2DirectoryEntryHeader::field_widths()));
        assert(decode_record(content.subrange(at, at + 8), widths(Ext2DirectoryEntryHeader::field_widths()))[0]
            == hdr.inode_addr);
    }
}

impl<D: IFile> Ext2Folder<D> {
    /// Creates an empty file or folder named `name` in the folder: a fresh
    /// inode of type `typ` with every permission and one link, allocated
    /// close to the last entry's, and an entry for it after the last entry,
    /// in that entry's spare room where it fits and else after it, grown to
    /// the end of its block. The new inode's address and the inode, or
    /// `None` where the folder has no entry, the entries or sizes do not add
    /// up, no inode is free, or a read or write of the device fails.
    pub fn create_empty_child(&mut self, name: &str, typ: NodeType) -> (r: Option<(u32, Ext2RawInode)>)
        requires
            old(self).fs.wf(),
            old(self).fs.inode_size() > 0,
            old(self).inode_addr >= 1,
            vstd::utf8::encode_utf8(name@).len() + 8 <= u16::MAX,
        ensures
            final(self).inode_addr == old(self).inode_addr,
            final(self).fs.wf(),
            final(self).fs.extended_sb == old(self).fs.extended_sb,
            final(self).fs.is_read_only() == old(self).fs.is_read_only(),
            old(self).fs.is_read_only() ==> r is None,
            r matches Some((addr, ino)) ==> {
                &&& addr > 1
                &&& ino.type_and_perm == new_inode_mode(typ)
                &&& ino.hard_links_to_inode == 1
                &&& forall|i: int| 0 <= i < ino.values().len() && i != 0 && i != 8 ==> #[trigger] ino.values()[i] == 0
                &&& directory_entries(
                    read_bytes_result(
                        old(self).fs.disk(),
                        old(self).fs.block_size(),
                        old(self).inode,
                        0,
                        old(self).inode.low32_size as nat,
                    ),
                    0,
                ).len() > 0
            },
            r is Some ==> final(self).inode.low32_size as nat % final(self).fs.block_size() == 0,
            r matches Some((addr, _)) ==> whole_direct_write(
                final(self).inode,
                final(self).fs.block_size(),
                final(self).fs.inode_size(),
                0,
                final(self).inode.low32_size as nat,
            ) ==> {
                let content = read_bytes_result(
                    final(self).fs.disk(),
                    final(self).fs.block_size(),
                    final(self).inode,
                    0,
                    final(self).inode.low32_size as nat,
                );
                exists|off: int|
                    0 <= off && off + 8 + name.spec_bytes().len() <= content.len() && #[trigger] decode_record(
                        content.subrange(off, off + 8),
                        widths(Ext2DirectoryEntryHeader::field_widths()),
                    )[0] == addr && content.subrange(off + 8, off + 8 + name.spec_bytes().len()) == name.spec_bytes()
            },
    {
        let name_len = name.len();
        let mut new_child = Ext2RawInode::default();
        let ghost blank = new_child;
        let entries = self.get_entries();
        if entries.len() == 0 {
            return None;
        }
        assert(entries@.map_values(|e: (usize, Ext2DirectoryEntryHeader, String)| entry_view(e)).len() > 0);
        let last_index = entries.len() - 1;
        let last_offset = entries[last_index].0;
        let mut last_header = entries[last_index].1;
        if last_header.inode_addr == 0 {
            return None;
        }
        let descriptor_index = self.fs.get_descriptor_index_of_inode_addr(last_header.inode_addr);
        let new_child_inode_addr = match self.fs.alloc_inode_close_to(descriptor_index) {
            Some(a) => a,
            None => return None,
        };
        new_child.type_and_perm = match typ {
            NodeType::File => 0x81FF,
            NodeType::Folder => 0x41FF,
        };
        new_child.hard_links_to_inode = 1;
        assert forall|i: int| 0 <= i < new_child.values().len() && i != 0 && i != 8 implies #[trigger] new_child.values()[i]
            == 0 by {
            assert(new_child.values()[i] == blank.values()[i]);
        }
        match self.fs.write_inode(new_child_inode_addr, &new_child) {
            Some(()) => {},
            None => return None,
        }
        let mut raw_data = match self.inode.read_bytes(0, self.inode.get_size(), &self.fs) {
            Some(v) => v,
            None => return None,
        };
        let mut entry_type: u8 = 0;
        match &self.fs.extended_sb {
            Some(esb) => {
                if esb.has_required_feature_directory_entry_type_field() {
                    entry_type = match typ {
                        NodeType::File => 1,
                        NodeType::Folder => 2,
                    };
                }
            },
            None => {},
        }
        let mut new_entry_header = Ext2DirectoryEntryHeader {
            inode_addr: new_child_inode_addr,
            entry_size: name_len as u16 + 8,
            name_length_low8: name_len as u8,
            entry_type,
        };
        let mut used_by_last: usize = 8 + last_header.name_length_low8 as usize;
        if used_by_last % 4 != 0 {
            used_by_last = used_by_last + (4 - used_by_last % 4);
        }
        if (last_header.entry_size as usize) < used_by_last {
            return None;
        }
        let free_in_last = last_header.entry_size as usize - used_by_last;
        if free_in_last >= new_entry_header.entry_size as usize {
            last_header.entry_size = used_by_last as u16;
            if last_offset > raw_data.len() || raw_data.len() - last_offset < 8 {
                return None;
            }
            let header_bytes = last_header.pack();
            put_bytes(&mut raw_data, last_offset, header_bytes.as_slice());
        }
        let new_entry_first_byte = match last_offset.checked_add(last_header.entry_size as usize) {
            Some(x) => x,
            None => return None,
        };
        let entry_end = match new_entry_first_byte.checked_add(new_entry_header.entry_size as usize) {
            Some(x) => x,
            None => return None,
        };
        proof {
            lemma_block_size_facts(self.fs.sb);
        }
        let bs = self.fs.get_block_size() as usize;
        let end_in_block = entry_end % bs;
        let grow = bs - end_in_block;
        let new_size = match (new_entry_header.entry_size as usize).checked_add(grow) {
            Some(x) => x,
            None => return None,
        };
        if new_size > 0xffff {
            return None;
        }
        new_entry_header.entry_size = new_size as u16;
        let total = match new_entry_first_byte.checked_add(new_size) {
            Some(x) => x,
            None => return None,
        };
        let mut data = resized(&raw_data, total);
        match self.inode.resize(total, &mut self.fs) {
            Some(()) => {},
            None => return None,
        }
        match self.fs.write_inode(self.inode_addr, &self.inode) {
            Some(()) => {},
            None => return None,
        }
        let header_bytes = new_entry_header.pack();
        put_bytes(&mut data, new_entry_first_byte, header_bytes.as_slice());
        let name_bytes = name.as_bytes();
        if new_entry_first_byte + 8 > total || total - (new_entry_first_byte + 8) < name_bytes.len() {
            return None;
        }
        let ghost with_header = data@;
        put_bytes(&mut data, new_entry_first_byte + 8, name_bytes);
        assert(data@.subrange(new_entry_first_byte as int, new_entry_first_byte + 8) == header_bytes@) by {
            assert(data@.subrange(new_entry_first_byte as int, new_entry_first_byte + 8) =~= with_header.subrange(
                new_entry_first_byte as int,
                new_entry_first_byte + 8,
            ));
        }
        assert(total % bs == 0) by (nonlinear_arith)
            requires
                bs > 0,
                total == entry_end + (bs - entry_end % bs),
                entry_end % bs < bs,
        ;
        let ghost hdr = new_entry_header;
        let ghost at = new_entry_first_byte as int;
        match self.inode.write_bytes(0, data.as_slice(), &mut self.fs) {
            Some(_) => {},
            None => return None,
        }
        proof {
            lemma_new_entry_reads_back(self.fs.disk(), self.fs.block_size(), self.fs.inode_size(), self.inode, data@, at, hdr, name@, name.spec_bytes());
        }
        Some((new_child_inode_addr, new_child))
    }
}

} // verus!
