use crate::endian::{get_u16, get_u32, u16_at, u32_at};
use crate::slices::split_array_ref;
use vstd::prelude::*;
use vstd::string::StringSliceAdditionalSpecFns;

verus! {

/// The length of a stored name: eight characters of base, three of extension.
pub const SHORT_NAME_LEN: usize = 11;

/// The size of one directory record, in bytes.
pub const RECORD_SIZE: usize = 32;

/// First byte of a record that was never used.
pub const FREE_ENTRY_PREFIX: u8 = 0x00;

/// First byte of a record whose file was deleted.
pub const DELETED_ENTRY_PREFIX: u8 = 0xe5;

/// The attribute bit of a volume label.
pub const ATTR_VOLUME_ID: u8 = 0x08;

/// The attribute bits that together mark a piece of a long name.
pub const ATTR_LONG_NAME: u8 = 0x0f;

/// The bits of the attribute byte that are looked at for a long name.
pub const ATTR_LONG_NAME_MASK: u8 = 0x3f;

/// The byte that parts base and extension in a file name.
pub const DOT: u8 = 0x2e;

/// The byte that pads a stored name.
pub const SPACE: u8 = 0x20;

/// The upper-case form of an ASCII letter; every other byte stays.
pub open spec fn spec_upper(b: u8) -> u8 {
    if 0x61 <= b <= 0x7a {
        (b - 0x20) as u8
    } else {
        b
    }
}

/// The upper-case form of an ASCII letter; every other byte stays.
#[verifier::when_used_as_spec(spec_upper)]
pub fn upper(b: u8) -> (u: u8)
    ensures
        u == spec_upper(b),
{
    if 0x61 <= b && b <= 0x7a {
        b - 0x20
    } else {
        b
    }
}

/// Byte `i` of `part` in upper case, or a space behind its end.
pub open spec fn padded(part: Seq<u8>, i: int) -> u8 {
    if i < part.len() {
        spec_upper(part[i])
    } else {
        SPACE
    }
}

/// A file name in the form in which a directory stores it: the base in upper
/// case, padded with spaces to eight bytes, then the extension, padded to
/// three.
#[derive(Clone, Copy, Debug, PartialEq, Eq)]
pub struct ShortName {
    pub bytes: [u8; 11],
}

impl ShortName {
    /// The part of a name before its first dot; all of it where it has none.
    pub open spec fn base_of(name: Seq<u8>) -> Seq<u8> {
        match name.index_of_first(DOT) {
            Some(dot) => name.subrange(0, dot),
            None => name,
        }
    }

    /// The part of a name behind its first dot; nothing where it has none.
    pub open spec fn extension_of(name: Seq<u8>) -> Seq<u8> {
        match name.index_of_first(DOT) {
            Some(dot) => name.subrange(dot + 1, name.len() as int),
            None => Seq::empty(),
        }
    }

    /// Whether a name can be stored: a base of one to eight bytes, an
    /// extension of at most three, and no second dot.
    pub open spec fn fits(name: Seq<u8>) -> bool {
        &&& 1 <= Self::base_of(name).len() <= 8
        &&& Self::extension_of(name).len() <= 3
        &&& !Self::extension_of(name).contains(DOT)
    }

    /// The eleven bytes under which a name that fits is stored.
    pub open spec fn stored_form(name: Seq<u8>) -> Seq<u8> {
        Seq::new(
            11,
            |i: int|
                if i < 8 {
                    padded(Self::base_of(name), i)
                } else {
                    padded(Self::extension_of(name), i - 8)
                },
        )
    }

    /// Whether the eleven bytes at the start of `record` are this name, letter
    /// case aside.
    pub open spec fn spec_matches(&self, record: Seq<u8>) -> bool {
        forall|i: int| 0 <= i < 11 ==> spec_upper(#[trigger] record[i]) == self.bytes@[i]
    }

    /// The stored form of `name`, or nothing where the name does not fit the
    /// eight-and-three form.
    pub fn encode(name: &[u8]) -> (r: Option<ShortName>)
        ensures
            r is Some <==> Self::fits(name@),
            r matches Some(short) ==> short.bytes@ == Self::stored_form(name@),
    {
        let len = name.len();
        let mut dot: usize = 0;
        while dot < len && name[dot] != DOT
            invariant
                dot <= len,
                len == name@.len(),
                forall|j: int| 0 <= j < dot ==> name@[j] != DOT,
            decreases len - dot,
        {
            dot += 1;
        }
        let ext_start = if dot < len {
            dot + 1
        } else {
            len
        };
        proof {
            name@.index_of_first_ensures(DOT);
            if dot < len {
                assert(name@.contains(DOT));
                assert(name@.index_of_first(DOT) == Some(dot as int));
            } else {
                assert(name@.index_of_first(DOT) is None);
            }
            assert(Self::base_of(name@) =~= name@.subrange(0, dot as int));
            assert(Self::extension_of(name@) =~= name@.subrange(ext_start as int, len as int));
        }
        if dot == 0 || dot > 8 || len - ext_start > 3 {
            return None;
        }
        let ghost base = Self::base_of(name@);
        let ghost ext = Self::extension_of(name@);
        let mut bytes = [SPACE;11];
        let mut i: usize = 0;
        while i < dot
            invariant
                i <= dot <= 8,
                dot <= len == name@.len(),
                base == Self::base_of(name@),
                base == name@.subrange(0, dot as int),
                forall|j: int| 0 <= j < i ==> bytes@[j] == padded(base, j),
                forall|j: int| i <= j < 11 ==> bytes@[j] == SPACE,
            decreases dot - i,
        {
            bytes[i] = upper(name[i]);
            i += 1;
        }
        let mut k: usize = 0;
        while k < len - ext_start
            invariant
                k <= len - ext_start <= 3,
                ext_start <= len == name@.len(),
                base == Self::base_of(name@),
                base.len() == dot,
                1 <= dot <= 8,
                ext == Self::extension_of(name@),
                ext == name@.subrange(ext_start as int, len as int),
                forall|j: int| 0 <= j < k ==> ext[j] != DOT,
                forall|j: int| 0 <= j < 8 ==> bytes@[j] == padded(base, j),
                forall|j: int| 0 <= j < k ==> bytes@[8 + j] == padded(ext, j),
                forall|j: int| 8 + k <= j < 11 ==> bytes@[j] == SPACE,
            decreases len - ext_start - k,
        {
            let b = name[ext_start + k];
            if b == DOT {
                assert(ext[k as int] == DOT);
                assert(ext.contains(DOT));
                return None;
            }
            bytes[8 + k] = upper(b);
            k += 1;
        }
        assert(bytes@ =~= Self::stored_form(name@)) by {
            assert forall|j: int| 0 <= j < 11 implies bytes@[j] == Self::stored_form(name@)[j] by {
                if j >= 8 {
                    assert(bytes@[8 + (j - 8)] == padded(ext, j - 8) || j >= 8 + k);
                }
            }
        }
        Some(ShortName { bytes })
    }

    /// The stored form of `name`, or nothing where the name does not fit the
    /// eight-and-three form.
    pub fn new(name: &str) -> (r: Option<ShortName>)
        ensures
            r is Some <==> Self::fits(name.spec_bytes()),
            r matches Some(short) ==> short.bytes@ == Self::stored_form(name.spec_bytes()),
    {
        Self::encode(name.as_bytes())
    }

    /// Whether the eleven bytes at the start of `record` are this name, letter
    /// case aside.
    pub fn matches(&self, record: &[u8]) -> (b: bool)
        requires
            record@.len() >= 11,
        ensures
            b == self.spec_matches(record@),
    {
        let mut i: usize = 0;
        while i < SHORT_NAME_LEN
            invariant
                i <= 11,
                record@.len() >= 11,
                forall|j: int| 0 <= j < i ==> spec_upper(#[trigger] record@[j]) == self.bytes@[j],
            decreases 11 - i,
        {
            if upper(record[i]) != self.bytes[i] {
                return false;
            }
            i += 1;
        }
        true
    }
}

/// What a directory says of one file, as plain values.
pub struct DirectoryEntryView {
    pub name: Seq<u8>,
    pub first_cluster: u32,
    pub size_bytes: u32,
}

/// What a directory says of one file: its stored name, the cluster its data
/// starts in and its size.
#[derive(Clone, Copy, Debug, PartialEq, Eq)]
pub struct DirectoryEntry {
    pub name: [u8; 11],
    pub first_cluster: u32,
    pub size_bytes: u32,
}

impl View for DirectoryEntry {
    type V = DirectoryEntryView;

    open spec fn view(&self) -> DirectoryEntryView {
        DirectoryEntryView {
            name: self.name@,
            first_cluster: self.first_cluster,
            size_bytes: self.size_bytes,
        }
    }
}

/// Whether the attribute byte marks a piece of a long name.
pub open spec fn spec_is_long_name(attributes: u8) -> bool {
    attributes & ATTR_LONG_NAME_MASK == ATTR_LONG_NAME
}

/// Whether the attribute byte marks a volume label.
pub open spec fn spec_is_volume_label(attributes: u8) -> bool {
    attributes & ATTR_VOLUME_ID != 0
}

/// Whether a record stands for a file or a directory: it is neither free nor
/// deleted, and neither a volume label nor a piece of a long name.
pub open spec fn spec_is_in_use(record: Seq<u8>) -> bool {
    &&& record[0] != FREE_ENTRY_PREFIX
    &&& record[0] != DELETED_ENTRY_PREFIX
    &&& !spec_is_long_name(record[11])
    &&& !spec_is_volume_label(record[11])
}

/// Whether a record stands for a file or a directory.
pub fn is_in_use(record: &[u8]) -> (b: bool)
    requires
        record@.len() >= 32,
    ensures
        b == spec_is_in_use(record@),
{
    record[0] != FREE_ENTRY_PREFIX && record[0] != DELETED_ENTRY_PREFIX && record[11]
        & ATTR_LONG_NAME_MASK != ATTR_LONG_NAME && record[11] & ATTR_VOLUME_ID == 0
}

impl DirectoryEntry {
    /// What a record of 32 bytes says: the name in its first eleven bytes,
    /// the first cluster in the sixteen-bit numbers at offsets 20 (high half)
    /// and 26 (low half), the size in the thirty-two-bit number at offset 28.
    pub open spec fn decode(record: Seq<u8>) -> DirectoryEntryView {
        DirectoryEntryView {
            name: record.subrange(0, 11),
            first_cluster: (u16_at(record, 26) + 0x1_0000 * u16_at(record, 20)) as u32,
            size_bytes: u32_at(record, 28) as u32,
        }
    }

    /// Reads one record.
    pub fn parse(record: &[u8]) -> (entry: DirectoryEntry)
        requires
            record@.len() >= 32,
        ensures
            entry@ == Self::decode(record@),
    {
        let (name, _) = split_array_ref::<11, u8>(record);
        let high = get_u16(record, 20) as u32;
        let low = get_u16(record, 26) as u32;
        assert(high << 16 == high * 0x1_0000 && (high << 16) | low == (high << 16) + low)
            by (bit_vector)
            requires
                high <= 0xffff,
                low <= 0xffff,
        ;
        DirectoryEntry {
            name: *name,
            first_cluster: (high << 16) | low,
            size_bytes: get_u32(record, 28),
        }
    }
}

/// Record `i` of a directory.
pub open spec fn record_at(directory: Seq<u8>, i: int) -> Seq<u8> {
    directory.subrange(32 * i, 32 * i + 32)
}

/// Whether record `i` of `directory` is a whole record, stands for a file and
/// carries the name.
pub open spec fn is_match(name: ShortName, directory: Seq<u8>, i: int) -> bool {
    &&& 0 <= i < directory.len() / 32
    &&& spec_is_in_use(record_at(directory, i))
    &&& name.spec_matches(record_at(directory, i))
}

/// Whether record `i` is the first of `directory` that carries the name.
pub open spec fn is_first_match(name: ShortName, directory: Seq<u8>, i: int) -> bool {
    &&& is_match(name, directory, i)
    &&& forall|j: int| 0 <= j < i ==> !is_match(name, directory, j)
}

/// The index of the first record of `directory` that carries the name.
pub open spec fn first_match(name: ShortName, directory: Seq<u8>) -> Option<int> {
    if exists|i: int| is_match(name, directory, i) {
        Some(choose|i: int| is_first_match(name, directory, i))
    } else {
        None
    }
}

/// What the first record that carries the name says, if there is one.
pub open spec fn spec_scan(name: ShortName, directory: Seq<u8>) -> Option<DirectoryEntryView> {
    match first_match(name, directory) {
        Some(i) => Some(DirectoryEntry::decode(record_at(directory, i))),
        None => None,
    }
}

/// Where a record carries the name, there is a first one that does, and
/// `first_match` names it.
pub proof fn lemma_first_match_exists(name: ShortName, directory: Seq<u8>, i: int)
    requires
        is_match(name, directory, i),
    ensures
        first_match(name, directory) is Some,
        is_first_match(name, directory, first_match(name, directory)->Some_0),
        first_match(name, directory)->Some_0 <= i,
    decreases i,
{
    if exists|j: int| 0 <= j < i && is_match(name, directory, j) {
        let j = choose|j: int| 0 <= j < i && is_match(name, directory, j);
        lemma_first_match_exists(name, directory, j);
    } else {
        assert(is_first_match(name, directory, i));
        lemma_first_match_is(name, directory, i);
    }
}

/// A first match is the first match: `first_match` names it.
pub proof fn lemma_first_match_is(name: ShortName, directory: Seq<u8>, i: int)
    requires
        is_first_match(name, directory, i),
    ensures
        first_match(name, directory) == Some(i),
{
    let picked = choose|k: int| is_first_match(name, directory, k);
    assert(is_first_match(name, directory, picked));
    if picked < i {
        assert(!is_match(name, directory, picked));
    }
    if i < picked {
        assert(!is_match(name, directory, i));
    }
}

/// Looks through the whole records of `directory` for the first one that
/// stands for a file and carries the name, letter case aside. Records that
/// are free or deleted, volume labels and pieces of long names are passed
/// over. Bytes behind the last whole record are not looked at.
pub fn scan_directory(directory: &[u8], name: &ShortName) -> (r: Option<DirectoryEntry>)
    ensures
        r is Some <==> exists|i: int| is_match(*name, directory@, i),
        match r {
            Some(entry) => Some(entry@),
            None => None,
        } == spec_scan(*name, directory@),
{
    let count = directory.len() / RECORD_SIZE;
    let mut i: usize = 0;
    while i < count
        invariant
            i <= count,
            count == directory@.len() / 32,
            directory@.len() <= usize::MAX,
            forall|j: int| 0 <= j < i ==> !is_match(*name, directory@, j),
        decreases count - i,
    {
        assert(32 * i + 32 <= directory@.len());
        let record = vstd::slice::slice_subrange(directory, 32 * i, 32 * i + 32);
        assert(record@ == record_at(directory@, i as int));
        if is_in_use(record) && name.matches(record) {
            proof {
                assert(is_first_match(*name, directory@, i as int));
                lemma_first_match_is(*name, directory@, i as int);
            }
            return Some(DirectoryEntry::parse(record));
        }
        i += 1;
    }
    None
}

/// Scanning a directory piece by piece finds what scanning it whole finds:
/// where the first piece is made of whole records, the first match of both
/// pieces together is that of the first piece, or else that of the second.
pub proof fn lemma_scan_in_pieces(name: ShortName, first: Seq<u8>, second: Seq<u8>)
    requires
        first.len() % 32 == 0,
    ensures
        spec_scan(name, first + second) == (if spec_scan(name, first) is Some {
            spec_scan(name, first)
        } else {
            spec_scan(name, second)
        }),
{
    let whole = first + second;
    let n = first.len() as int / 32;
    assert forall|i: int| 0 <= i < n implies record_at(whole, i) == record_at(first, i) by {
        assert(record_at(whole, i) =~= record_at(first, i));
    }
    assert forall|i: int| 0 <= i && 32 * i + 32 <= second.len() implies record_at(whole, n + i)
        == record_at(second, i) by {
        assert(record_at(whole, n + i) =~= record_at(second, i));
    }
    assert(whole.len() / 32 == n + second.len() / 32);
    assert forall|i: int| 0 <= i < n implies is_match(name, whole, i) == is_match(
        name,
        first,
        i,
    ) by {}
    assert forall|i: int| 0 <= i implies is_match(name, whole, n + i) == is_match(
        name,
        second,
        i,
    ) by {}
    if first_match(name, first) is Some {
        let k = choose|k: int| is_match(name, first, k);
        lemma_first_match_exists(name, first, k);
    }
    if first_match(name, second) is Some {
        let k = choose|k: int| is_match(name, second, k);
        lemma_first_match_exists(name, second, k);
    }
    match first_match(name, first) {
        Some(i) => {
            assert(is_first_match(name, first, i));
            assert(is_first_match(name, whole, i));
            lemma_first_match_is(name, whole, i);
        },
        None => {
            assert forall|i: int| 0 <= i < n implies !is_match(name, whole, i) by {
                assert(!is_match(name, first, i));
            }
            match first_match(name, second) {
                Some(i) => {
                    assert(is_first_match(name, second, i));
                    assert(is_match(name, whole, n + i));
                    assert forall|j: int| 0 <= j < n + i implies !is_match(name, whole, j) by {
                        if j >= n {
                            assert(is_match(name, whole, n + (j - n)) == is_match(
                                name,
                                second,
                                j - n,
                            ));
                        }
                    }
                    assert(is_first_match(name, whole, n + i));
                    lemma_first_match_is(name, whole, n + i);
                },
                None => {
                    assert forall|j: int| !is_match(name, whole, j) by {
                        if j >= n {
                            assert(is_match(name, whole, n + (j - n)) == is_match(
                                name,
                                second,
                                j - n,
                            ));
                        }
                    }
                },
            }
        },
    }
}

} // verus!
