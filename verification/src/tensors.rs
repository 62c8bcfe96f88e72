//! What the weight files hold: the packed archive and the raw tensor set.

use vstd::prelude::*;
use crate::ops::WeightFormat;
use crate::text::same_text;

verus! {

/// A tensor of the packed archive. `format` is set where the format code stands for
/// a matrix format.
#[derive(Clone, Copy, Debug, PartialEq, Eq, Structural)]
pub struct PackedInfo {
    pub code: u32,
    pub format: Option<WeightFormat>,
    pub out_features: usize,
    pub in_features: usize,
    pub data_offset: u64,
    pub data_bytes: usize,
}

/// A name and what it stands for.
pub struct PackedEntry {
    pub name: String,
    pub info: PackedInfo,
}

/// The directory of a packed archive.
pub struct PackedIndex {
    pub entries: Vec<PackedEntry>,
    /// Where tensor data begins in the file.
    pub data_start: u64,
}

/// What the archive holds under `name`; the last entry counts.
pub open spec fn packed_lookup(entries: Seq<PackedEntry>, name: Seq<char>) -> Option<PackedInfo>
    decreases entries.len(),
{
    if entries.len() == 0 {
        None
    } else if entries.last().name@ == name {
        Some(entries.last().info)
    } else {
        packed_lookup(entries.drop_last(), name)
    }
}

impl PackedIndex {
    pub open spec fn lookup(&self, name: Seq<char>) -> Option<PackedInfo> {
        packed_lookup(self.entries@, name)
    }

    /// What the archive holds under `name`.
    pub fn entry(&self, name: &str) -> (r: Option<PackedInfo>)
        ensures
            r == self.lookup(name@),
    {
        let mut i: usize = self.entries.len();
        assert(self.entries@.take(i as int) =~= self.entries@);
        while i > 0
            invariant
                i <= self.entries@.len(),
                packed_lookup(self.entries@.take(i as int), name@) == self.lookup(name@),
            decreases i,
        {
            assert(self.entries@.take(i as int).drop_last() =~= self.entries@.take(i - 1));
            if same_text(self.entries[i - 1].name.as_str(), name) {
                return Some(self.entries[i - 1].info);
            }
            i -= 1;
        }
        None
    }
}

/// A raw tensor: its first two dimensions, zero where it has fewer, and its size.
#[derive(Clone, Copy, Debug, PartialEq, Eq, Structural)]
pub struct RawInfo {
    pub rows: usize,
    pub cols: usize,
    pub bytes: usize,
}

/// A raw tensor.
pub struct RawEntry {
    pub name: String,
    pub shape: Vec<usize>,
    pub bytes: usize,
}

/// The raw tensor set.
pub struct RawIndex {
    pub entries: Vec<RawEntry>,
}

/// What a tensor of the given shape and size is.
pub open spec fn raw_info(shape: Seq<usize>, bytes: usize) -> RawInfo {
    RawInfo {
        bytes,
        rows: if shape.len() > 0 {
            shape[0]
        } else {
            0
        },
        cols: if shape.len() > 1 {
            shape[1]
        } else {
            0
        },
    }
}

/// The tensor called `name`; the last entry counts.
pub open spec fn raw_lookup(entries: Seq<RawEntry>, name: Seq<char>) -> Option<RawInfo>
    decreases entries.len(),
{
    if entries.len() == 0 {
        None
    } else if entries.last().name@ == name {
        Some(raw_info(entries.last().shape@, entries.last().bytes))
    } else {
        raw_lookup(entries.drop_last(), name)
    }
}

impl RawIndex {
    pub open spec fn lookup(&self, name: Seq<char>) -> Option<RawInfo> {
        raw_lookup(self.entries@, name)
    }

    /// The tensor called `name`.
    pub fn entry(&self, name: &str) -> (r: Option<RawInfo>)
        ensures
            r == self.lookup(name@),
    {
        let mut i: usize = self.entries.len();
        assert(self.entries@.take(i as int) =~= self.entries@);
        while i > 0
            invariant
                i <= self.entries@.len(),
                raw_lookup(self.entries@.take(i as int), name@) == self.lookup(name@),
            decreases i,
        {
            assert(self.entries@.take(i as int).drop_last() =~= self.entries@.take(i - 1));
            if same_text(self.entries[i - 1].name.as_str(), name) {
                let shape = &self.entries[i - 1].shape;
                let rows: usize = if shape.len() > 0 {
                    shape[0]
                } else {
                    0
                };
                let cols: usize = if shape.len() > 1 {
                    shape[1]
                } else {
                    0
                };
                return Some(RawInfo { rows, cols, bytes: self.entries[i - 1].bytes });
            }
            i -= 1;
        }
        None
    }
}

/// Where a tensor is looked for.
#[derive(Clone, Copy, Debug, PartialEq, Eq, Structural)]
pub enum Place {
    Packed,
    Raw,
    Either,
}

/// Everything weights can be read from.
pub struct Sources {
    pub packed: Option<PackedIndex>,
    pub raw: RawIndex,
}

impl Sources {
    /// What the archive, if any, holds under `name`.
    pub open spec fn packed_info(&self, name: Seq<char>) -> Option<PackedInfo> {
        match self.packed {
            Some(p) => p.lookup(name),
            None => None,
        }
    }

    pub open spec fn in_packed(&self, name: Seq<char>) -> bool {
        self.packed_info(name) is Some
    }

    pub open spec fn in_raw(&self, name: Seq<char>) -> bool {
        self.raw.lookup(name) is Some
    }

    /// Whether `name` is found at `place`.
    pub open spec fn holds(&self, place: Place, name: Seq<char>) -> bool {
        match place {
            Place::Packed => self.in_packed(name),
            Place::Raw => self.in_raw(name),
            Place::Either => self.in_packed(name) || self.in_raw(name),
        }
    }

    /// Whether the archive holds a matrix under `name`.
    pub open spec fn packed_matrix(&self, name: Seq<char>) -> bool {
        self.packed_info(name) matches Some(info) && info.format is Some
    }

    pub fn packed_entry(&self, name: &str) -> (r: Option<PackedInfo>)
        ensures
            r == self.packed_info(name@),
    {
        match &self.packed {
            Some(p) => p.entry(name),
            None => None,
        }
    }

    pub fn raw_entry(&self, name: &str) -> (r: Option<RawInfo>)
        ensures
            r == self.raw.lookup(name@),
    {
        self.raw.entry(name)
    }

    /// Whether `name` is found at `place`.
    pub fn find(&self, place: Place, name: &str) -> (r: bool)
        ensures
            r == self.holds(place, name@),
    {
        match place {
            Place::Packed => self.packed_entry(name).is_some(),
            Place::Raw => self.raw_entry(name).is_some(),
            Place::Either => self.packed_entry(name).is_some() || self.raw_entry(name).is_some(),
        }
    }

    /// Whether the archive holds a matrix under `name`.
    pub fn has_packed_matrix(&self, name: &str) -> (r: bool)
        ensures
            r == self.packed_matrix(name@),
    {
        match self.packed_entry(name) {
            Some(info) => info.format.is_some(),
            None => false,
        }
    }
}

/// Every archived tensor is found under its own name, where no later one bears it, and
/// nothing is found under a name that none bears.
pub proof fn law_archived_found(entries: Seq<PackedEntry>, name: Seq<char>)
    ensures
        forall|i: int|
            #![trigger entries[i]]
            0 <= i < entries.len() && entries[i].name@ == name && (forall|j: int|
                i < j < entries.len() ==> (#[trigger] entries[j]).name@ != name)
                ==> packed_lookup(entries, name) == Some(entries[i].info),
        packed_lookup(entries, name) is None <==> forall|i: int|
            0 <= i < entries.len() ==> (#[trigger] entries[i]).name@ != name,
    decreases entries.len(),
{
    if entries.len() > 0 {
        let rest = entries.drop_last();
        let last = entries.len() - 1;
        law_archived_found(rest, name);
        assert(entries[last] == entries.last());
        assert forall|i: int| 0 <= i < last implies #[trigger] rest[i] == entries[i] by {}
        assert forall|i: int|
            #![trigger entries[i]]
            0 <= i < entries.len() && entries[i].name@ == name && (forall|j: int|
                i < j < entries.len() ==> (#[trigger] entries[j]).name@
                    != name) implies packed_lookup(entries, name) == Some(entries[i].info) by {
            if i < last {
                assert(entries[last].name@ != name);
                assert(rest[i] == entries[i]);
                assert forall|j: int| i < j < rest.len() implies (#[trigger] rest[j]).name@
                    != name by {
                    assert(entries[j].name@ != name);
                }
            }
        }
        if entries.last().name@ != name {
            if packed_lookup(rest, name) is None {
                assert forall|i: int| 0 <= i < entries.len() implies (#[trigger] entries[i]).name@
                    != name by {
                    if i < last {
                        assert(rest[i].name@ != name);
                    }
                }
            } else {
                let k = choose|k: int| 0 <= k < rest.len() && (#[trigger] rest[k]).name@ == name;
                assert(entries[k].name@ == name);
            }
        }
    }
}

/// Every raw tensor is found under its own name, where no later one bears it, with its
/// size and, for a matrix, its two dimensions. Nothing is found under a name that none
/// bears.
pub proof fn law_raw_found(entries: Seq<RawEntry>, name: Seq<char>)
    ensures
        forall|i: int|
            #![trigger entries[i]]
            0 <= i < entries.len() && entries[i].name@ == name && (forall|j: int|
                i < j < entries.len() ==> (#[trigger] entries[j]).name@ != name) ==> {
                &&& raw_lookup(entries, name) matches Some(info)
                &&& info.bytes == entries[i].bytes
                &&& entries[i].shape@.len() == 2 ==> entries[i].shape@ == seq![info.rows, info.cols]
                &&& entries[i].shape@.len() == 1 ==> entries[i].shape@ == seq![info.rows]
            },
        raw_lookup(entries, name) is None <==> forall|i: int|
            0 <= i < entries.len() ==> (#[trigger] entries[i]).name@ != name,
    decreases entries.len(),
{
    if entries.len() > 0 {
        let rest = entries.drop_last();
        let last = entries.len() - 1;
        law_raw_found(rest, name);
        assert(entries[last] == entries.last());
        assert forall|i: int| 0 <= i < last implies #[trigger] rest[i] == entries[i] by {}
        if entries[last].name@ == name {
            let shape = entries[last].shape@;
            let info = raw_lookup(entries, name)->0;
            assert(shape.len() == 2 ==> shape =~= seq![info.rows, info.cols]);
            assert(shape.len() == 1 ==> shape =~= seq![info.rows]);
        }
        assert forall|i: int|
            #![trigger entries[i]]
            0 <= i < entries.len() && entries[i].name@ == name && (forall|j: int|
                i < j < entries.len() ==> (#[trigger] entries[j]).name@ != name) implies {
            &&& raw_lookup(entries, name) matches Some(info)
            &&& info.bytes == entries[i].bytes
            &&& entries[i].shape@.len() == 2 ==> entries[i].shape@ == seq![info.rows, info.cols]
            &&& entries[i].shape@.len() == 1 ==> entries[i].shape@ == seq![info.rows]
        } by {
            if i < last {
                assert(entries[last].name@ != name);
                assert(rest[i] == entries[i]);
                assert forall|j: int| i < j < rest.len() implies (#[trigger] rest[j]).name@
                    != name by {
                    assert(entries[j].name@ != name);
                }
            }
        }
        if entries.last().name@ != name {
            if raw_lookup(rest, name) is None {
                assert forall|i: int| 0 <= i < entries.len() implies (#[trigger] entries[i]).name@
                    != name by {
                    if i < last {
                        assert(rest[i].name@ != name);
                    }
                }
            } else {
                let k = choose|k: int| 0 <= k < rest.len() && (#[trigger] rest[k]).name@ == name;
                assert(entries[k].name@ == name);
            }
        }
    }
}

} // verus!
