//! The kernel's tables of mounts and of swap space.

use vstd::prelude::*;
use crate::search::{first_below, is_first, lemma_first_below, lemma_first_below_is};
use crate::text::{lines, lines_of, texts, unescape, unescaped, words, words_of};

verus! {

/// A file system that is mounted: the device, and where it is mounted.
#[derive(Clone, Debug, PartialEq, Eq)]
pub struct Mount {
    /// The device that is mounted.
    pub source: String,
    /// The directory that it is mounted at.
    pub dest: String,
}

impl View for Mount {
    type V = (Seq<char>, Seq<char>);

    /// The device, and the directory.
    open spec fn view(&self) -> (Seq<char>, Seq<char>) {
        (self.source@, self.dest@)
    }
}

/// The file systems that are mounted, as the kernel lists them.
#[derive(Clone, Debug, PartialEq, Eq)]
pub struct Mounts(pub Vec<Mount>);

impl View for Mounts {
    type V = Seq<(Seq<char>, Seq<char>)>;

    open spec fn view(&self) -> Seq<(Seq<char>, Seq<char>)> {
        self.0@.map_values(|m: Mount| m@)
    }
}

/// The devices that are swapped to, as the kernel lists them.
#[derive(Clone, Debug, PartialEq, Eq)]
pub struct Swaps(pub Vec<String>);

impl View for Swaps {
    type V = Seq<Seq<char>>;

    open spec fn view(&self) -> Seq<Seq<char>> {
        texts(self.0@)
    }
}

/// The mount that a line of the kernel's table of mounts stands for: its
/// first two words, where it has two.
pub open spec fn mount_of_line(line: Seq<char>) -> Option<(Seq<char>, Seq<char>)> {
    let words = words_of(line);
    if words.len() >= 2 {
        Some((unescaped(words[0]), unescaped(words[1])))
    } else {
        None
    }
}

/// The mounts that the kernel's table of mounts lists.
pub open spec fn mounts_of(table: Seq<char>) -> Seq<(Seq<char>, Seq<char>)> {
    lines_of(table).filter_map(|line: Seq<char>| mount_of_line(line))
}

/// The device that a line of the kernel's table of swap space names: its
/// first word.
pub open spec fn swap_of_line(line: Seq<char>) -> Option<Seq<char>> {
    let words = words_of(line);
    if words.len() >= 1 {
        Some(unescaped(words[0]))
    } else {
        None
    }
}

/// The devices that the kernel's table of swap space lists; its first line
/// holds the names of the columns.
pub open spec fn swaps_of(table: Seq<char>) -> Seq<Seq<char>> {
    if lines_of(table).len() == 0 {
        Seq::empty()
    } else {
        lines_of(table).skip(1).filter_map(|line: Seq<char>| swap_of_line(line))
    }
}

/// Where the first mount of the device `path` is mounted.
pub open spec fn mount_point_of(mounts: Seq<(Seq<char>, Seq<char>)>, path: Seq<char>) -> Option<
    Seq<char>,
> {
    match first_below(mounts.len() as int, |i: int| mounts[i].0 == path) {
        Some(i) => Some(mounts[i].1),
        None => None,
    }
}

impl Mounts {
    /// Reads the kernel's table of mounts: a line for each mount, with the
    /// device and the directory as its first two words.
    pub fn parse(table: &str) -> (r: Mounts)
        ensures
            r@ == mounts_of(table@),
    {
        let all = lines(table);
        let ghost each = |line: Seq<char>| mount_of_line(line);
        let mut mounts: Vec<Mount> = Vec::new();
        let mut i: usize = 0;
        assert(mounts@.map_values(|m: Mount| m@) =~= texts(all@).take(0).filter_map(each));
        while i < all.len()
            invariant
                i <= all.len(),
                texts(all@) == lines_of(table@),
                each == (|line: Seq<char>| mount_of_line(line)),
                mounts@.map_values(|m: Mount| m@) == texts(all@).take(i as int).filter_map(each),
            decreases all.len() - i,
        {
            proof {
                texts(all@).lemma_filter_map_take_succ(each, i as int);
            }
            let ghost before = mounts@;
            let fields = words(all[i].as_str());
            if fields.len() >= 2 {
                let mount = Mount {
                    source: unescape(fields[0].as_str()),
                    dest: unescape(fields[1].as_str()),
                };
                assert(texts(fields@)[0] == fields@[0]@ && texts(fields@)[1] == fields@[1]@);
                mounts.push(mount);
                assert(mounts@.map_values(|m: Mount| m@) =~= before.map_values(|m: Mount| m@)
                    + seq![mount@]);
            }
            i += 1;
        }
        assert(texts(all@).take(i as int) =~= texts(all@));
        Mounts(mounts)
    }

    /// Where the device `path` is mounted: the directory of its first mount.
    pub fn get_mount_point(&self, path: &str) -> (r: Option<String>)
        ensures
            match r {
                Some(dest) => mount_point_of(self@, path@) == Some(dest@),
                None => mount_point_of(self@, path@) is None,
            },
    {
        let wanted = String::from_str(path);
        let ghost found = |i: int| self@[i].0 == path@;
        let mut i: usize = 0;
        while i < self.0.len()
            invariant
                i <= self.0.len(),
                wanted@ == path@,
                found == (|i: int| self@[i].0 == path@),
                forall|j: int| 0 <= j < i ==> !#[trigger] found(j),
            decreases self.0.len() - i,
        {
            if self.0[i].source == wanted {
                proof {
                    assert(is_first(self@.len() as int, found, i as int));
                    lemma_first_below_is(self@.len() as int, found, i as int);
                }
                return Some(self.0[i].dest.clone());
            }
            i += 1;
        }
        proof {
            lemma_first_below(self@.len() as int, found);
        }
        None
    }
}

impl Swaps {
    /// Reads the kernel's table of swap space: after the line with the names of
    /// the columns, a line for each device, with the device as its first word.
    pub fn parse(table: &str) -> (r: Swaps)
        ensures
            r@ == swaps_of(table@),
    {
        let all = lines(table);
        let ghost each = |line: Seq<char>| swap_of_line(line);
        let ghost rest = texts(all@).skip(1);
        let mut swaps: Vec<String> = Vec::new();
        if all.len() == 0 {
            assert(texts(swaps@) =~= Seq::<Seq<char>>::empty());
            return Swaps(swaps);
        }
        let mut i: usize = 1;
        assert(texts(swaps@) =~= rest.take(0).filter_map(each));
        while i < all.len()
            invariant
                1 <= i <= all.len(),
                texts(all@) == lines_of(table@),
                rest == texts(all@).skip(1),
                each == (|line: Seq<char>| swap_of_line(line)),
                texts(swaps@) == rest.take(i - 1).filter_map(each),
            decreases all.len() - i,
        {
            proof {
                rest.lemma_filter_map_take_succ(each, i - 1);
                assert(rest[i - 1] == all@[i as int]@);
            }
            let ghost before = swaps@;
            let fields = words(all[i].as_str());
            if fields.len() >= 1 {
                let device = unescape(fields[0].as_str());
                assert(texts(fields@)[0] == fields@[0]@);
                swaps.push(device);
                assert(texts(swaps@) =~= texts(before) + seq![device@]);
            }
            i += 1;
        }
        assert(rest.take(i - 1) =~= rest);
        Swaps(swaps)
    }

    /// Whether the device `path` is swapped to.
    pub fn get_swapped(&self, path: &str) -> (r: bool)
        ensures
            r == self@.contains(path@),
    {
        let wanted = String::from_str(path);
        let mut i: usize = 0;
        while i < self.0.len()
            invariant
                i <= self.0.len(),
                wanted@ == path@,
                forall|j: int| 0 <= j < i ==> self@[j] != path@,
            decreases self.0.len() - i,
        {
            if self.0[i] == wanted {
                assert(self@[i as int] == path@);
                return true;
            }
            i += 1;
        }
        false
    }
}

} // verus!
