//! The table of file systems of the installed system, and the names that the
//! system has for block devices.

use vstd::prelude::*;
use crate::disk::{Disk, DiskView};
use crate::disks::Disks;
use crate::error::DiskError;
use crate::partitions::{PartitionInfo, PartitionView};
use crate::search::{
    first_below, is_first, lemma_first_below, lemma_first_below_is, lemma_map_push,
};

verus! {

/// A name that the system has for a block device: a link in one of its
/// directories of devices by UUID or by serial, and the device node that the
/// link leads to.
#[derive(Clone, Debug, PartialEq, Eq)]
pub struct BlockLink {
    /// The device node.
    pub device_path: String,
    /// The name of the link: the UUID of the file system, or the serial of the device.
    pub name: String,
}

impl View for BlockLink {
    type V = (Seq<char>, Seq<char>);

    /// The device node, and the name.
    open spec fn view(&self) -> (Seq<char>, Seq<char>) {
        (self.device_path@, self.name@)
    }
}

/// What a [`BlockInfo`] stands for.
#[verifier::ext_equal]
pub struct BlockInfoView {
    pub uuid: Seq<char>,
    pub mount: Seq<char>,
    pub fs: Seq<char>,
    pub options: Seq<char>,
    pub dump: bool,
    pub pass: bool,
}

/// One line of the table of file systems of the installed system.
#[derive(Clone, Debug, PartialEq, Eq)]
pub struct BlockInfo {
    /// The UUID of the file system.
    pub uuid: String,
    /// Where the file system is to be mounted.
    pub mount: String,
    /// The name of the file system in the mount table.
    pub fs: String,
    /// The mount options.
    pub options: String,
    /// Whether the file system is to be dumped.
    pub dump: bool,
    /// Whether the file system is to be checked at boot.
    pub pass: bool,
}

impl View for BlockInfo {
    type V = BlockInfoView;

    open spec fn view(&self) -> BlockInfoView {
        BlockInfoView {
            uuid: self.uuid@,
            mount: self.mount@,
            fs: self.fs@,
            options: self.options@,
            dump: self.dump,
            pass: self.pass,
        }
    }
}

/// The views of a list of links.
pub open spec fn link_views(ids: Seq<BlockLink>) -> Seq<(Seq<char>, Seq<char>)> {
    ids.map_values(|id: BlockLink| id@)
}

/// The name that the list has for the device node `path`: that of the first
/// link to it.
pub open spec fn name_of(ids: Seq<(Seq<char>, Seq<char>)>, path: Seq<char>) -> Option<Seq<char>> {
    match first_below(ids.len() as int, |i: int| ids[i].0 == path) {
        Some(i) => Some(ids[i].1),
        None => None,
    }
}

/// A column of the table for a yes or a no.
pub open spec fn digit(b: bool) -> Seq<char> {
    if b {
        "1"@
    } else {
        "0"@
    }
}

/// The line of the table for `b`: six columns, two blanks between them, and a
/// line feed at the end.
pub open spec fn fstab_line(b: BlockInfoView) -> Seq<char> {
    "UUID="@ + b.uuid + "  "@ + b.mount + "  "@ + b.fs + "  "@ + b.options + "  "@ + digit(b.dump)
        + "  "@ + digit(b.pass) + "\n"@
}

impl PartitionView {
    /// The line of the table for the partition, if it gets one: it has a mount
    /// target and a file system, and the list has the UUID of its device node.
    pub open spec fn block_info(self, ids: Seq<(Seq<char>, Seq<char>)>) -> Option<BlockInfoView> {
        match (self.target, self.filesystem, name_of(ids, self.device_path)) {
            (Some(target), Some(fs), Some(uuid)) => Some(
                BlockInfoView {
                    uuid,
                    mount: target,
                    fs: fs.mount_name(),
                    options: fs.mount_options(),
                    dump: false,
                    pass: false,
                },
            ),
            _ => None,
        }
    }

    /// What the partition adds to the table: its line, or nothing.
    pub open spec fn fstab_entry(self, ids: Seq<(Seq<char>, Seq<char>)>) -> Seq<char> {
        match self.block_info(ids) {
            Some(b) => fstab_line(b),
            None => Seq::empty(),
        }
    }
}

impl DiskView {
    /// What the partitions of the disk add to the table, in their order.
    pub open spec fn fstab(self, ids: Seq<(Seq<char>, Seq<char>)>) -> Seq<char> {
        self.partitions.map_values(|p: PartitionView| p.fstab_entry(ids)).flatten()
    }
}

/// The table of file systems for the disks: the lines of their partitions, disk
/// by disk.
pub open spec fn fstab_of(disks: Seq<DiskView>, ids: Seq<(Seq<char>, Seq<char>)>) -> Seq<char> {
    disks.map_values(|d: DiskView| d.fstab(ids)).flatten()
}

/// The name that the list has for the device node `path`.
pub fn find_name<'a>(ids: &'a Vec<BlockLink>, path: &String) -> (r: Option<&'a String>)
    ensures
        match r {
            Some(name) => name_of(link_views(ids@), path@) == Some(name@),
            None => name_of(link_views(ids@), path@) is None,
        },
{
    let ghost views = link_views(ids@);
    let ghost found = |i: int| views[i].0 == path@;
    let mut i: usize = 0;
    while i < ids.len()
        invariant
            i <= ids.len(),
            views == link_views(ids@),
            found == (|i: int| views[i].0 == path@),
            forall|j: int| 0 <= j < i ==> !#[trigger] found(j),
        decreases ids.len() - i,
    {
        if ids[i].device_path == *path {
            proof {
                assert(is_first(views.len() as int, found, i as int));
                lemma_first_below_is(views.len() as int, found, i as int);
            }
            return Some(&ids[i].name);
        }
        i += 1;
    }
    proof {
        lemma_first_below(views.len() as int, found);
    }
    None
}

/// The serial of the device `path`: the name of the first link to it among
/// those that the system keeps by serial. `SerialGet` where there is none.
pub fn get_serial_no(links: &Vec<BlockLink>, path: &str) -> (r: Result<String, DiskError>)
    ensures
        match r {
            Ok(serial) => name_of(link_views(links@), path@) == Some(serial@),
            Err(e) => name_of(link_views(links@), path@) is None && e == (DiskError::SerialGet {
                why: e->SerialGet_why,
            }) && e->SerialGet_why@ == "no link to the device was found"@,
        },
{
    let wanted = String::from_str(path);
    match find_name(links, &wanted) {
        Some(name) => Ok(name.clone()),
        None => Err(DiskError::SerialGet { why: String::from_str("no link to the device was found") }),
    }
}

impl BlockInfo {
    /// The line of the table: six columns, two blanks between them, and a line
    /// feed at the end.
    pub fn fstab_line(&self) -> (r: String)
        ensures
            r@ == fstab_line(self@),
    {
        let mut line = String::from_str("UUID=");
        line.append(self.uuid.as_str());
        line.append("  ");
        line.append(self.mount.as_str());
        line.append("  ");
        line.append(self.fs.as_str());
        line.append("  ");
        line.append(self.options.as_str());
        line.append("  ");
        line.append(
            if self.dump {
                "1"
            } else {
                "0"
            },
        );
        line.append("  ");
        line.append(
            if self.pass {
                "1"
            } else {
                "0"
            },
        );
        line.append("\n");
        line
    }
}

impl PartitionInfo {
    /// The line of the table of file systems for the partition, if it gets
    /// one: it has a mount target and a file system, and `ids` has the UUID of
    /// its device node.
    pub fn get_block_info(&self, ids: &Vec<BlockLink>) -> (r: Option<BlockInfo>)
        ensures
            match r {
                Some(b) => self@.block_info(link_views(ids@)) == Some(b@),
                None => self@.block_info(link_views(ids@)) is None,
            },
    {
        let target = match &self.target {
            Some(target) => target,
            None => {
                return None;
            },
        };
        let fs = match self.filesystem {
            Some(fs) => fs,
            None => {
                return None;
            },
        };
        let uuid = match find_name(ids, &self.device_path) {
            Some(uuid) => uuid,
            None => {
                return None;
            },
        };
        let b = BlockInfo {
            uuid: uuid.clone(),
            mount: target.clone(),
            fs: String::from_str(fs.get_mount_name()),
            options: String::from_str(fs.get_preferred_options()),
            dump: false,
            pass: false,
        };
        assert(b@ =~= self@.block_info(link_views(ids@))->Some_0);
        Some(b)
    }
}

impl Disk {
    /// Appends what the partitions of the disk add to the table of file systems.
    fn push_fstab(&self, ids: &Vec<BlockLink>, fstab: &mut String)
        ensures
            final(fstab)@ == old(fstab)@ + self@.fstab(link_views(ids@)),
    {
        let ghost each = |p: PartitionView| p.fstab_entry(link_views(ids@));
        let mut i: usize = 0;
        assert(self@.partitions.take(0).map_values(each) =~= Seq::<Seq<char>>::empty());
        while i < self.partitions.len()
            invariant
                i <= self.partitions.len(),
                each == (|p: PartitionView| p.fstab_entry(link_views(ids@))),
                fstab@ == old(fstab)@ + self@.partitions.take(i as int).map_values(each).flatten(),
            decreases self.partitions.len() - i,
        {
            proof {
                let seen = self@.partitions.take(i as int);
                assert(self@.partitions.take(i + 1) =~= seen.push(self@.partitions[i as int]));
                lemma_map_push(seen, self@.partitions[i as int], each);
                Seq::lemma_flatten_push(seen.map_values(each), each(self@.partitions[i as int]));
            }
            let ghost before = fstab@;
            match self.partitions[i].get_block_info(ids) {
                Some(b) => {
                    let line = b.fstab_line();
                    fstab.append(line.as_str());
                },
                None => {},
            }
            assert(fstab@ =~= before + each(self@.partitions[i as int]));
            assert(fstab@ =~= old(fstab)@ + self@.partitions.take(i + 1).map_values(
                each,
            ).flatten());
            i += 1;
        }
        assert(self@.partitions.take(i as int) =~= self@.partitions);
    }
}

impl Disks {
    /// The table of file systems of the installed system: a line for each
    /// partition that has a mount target, a file system and, in `ids`, a UUID.
    pub fn generate_fstab(&self, ids: &Vec<BlockLink>) -> (r: String)
        ensures
            r@ == fstab_of(self@, link_views(ids@)),
    {
        let ghost each = |d: DiskView| d.fstab(link_views(ids@));
        let mut fstab = String::new();
        let mut i: usize = 0;
        assert(self@.take(0).map_values(each) =~= Seq::<Seq<char>>::empty());
        while i < self.0.len()
            invariant
                i <= self.0.len(),
                each == (|d: DiskView| d.fstab(link_views(ids@))),
                fstab@ == self@.take(i as int).map_values(each).flatten(),
            decreases self.0.len() - i,
        {
            proof {
                let seen = self@.take(i as int);
                assert(self@.take(i + 1) =~= seen.push(self@[i as int]));
                lemma_map_push(seen, self@[i as int], each);
                Seq::lemma_flatten_push(seen.map_values(each), each(self@[i as int]));
            }
            self.0[i].push_fstab(ids, &mut fstab);
            i += 1;
        }
        assert(self@.take(i as int) =~= self@);
        fstab
    }
}

} // verus!
