//! Directory entries: a name and the number of the inode it stands for, in a fixed number of
//! bytes.
use crate::seqs;
use vstd::prelude::*;
use vstd::utf8::*;

verus! {

/// The longest name, in bytes, that an entry can hold.
pub const NAME_LENGTH_LIMIT: usize = 27;

/// The bytes of an entry that hold its name and the zero byte behind it.
pub const NAME_FIELD_SZ: usize = 28;

/// The bytes of one entry.
pub const DIRENT_SZ: usize = 32;

/// What an entry says.
pub struct DirEntryView {
    /// The name, in UTF-8.
    pub name: Seq<u8>,
    pub inode_id: u32,
}

/// The property of being the zero byte.
pub open spec fn is_nul() -> spec_fn(u8) -> bool {
    |b: u8| b == 0
}

/// The bytes in front of the first zero byte, or all of them if there is none.
pub open spec fn until_nul(s: Seq<u8>) -> Seq<u8> {
    s.take(seqs::first_index(s, is_nul()))
}

/// The number that four bytes hold, least significant byte first.
pub open spec fn le_value(b: Seq<u8>) -> int {
    b[0] + 256 * b[1] + 65536 * b[2] + 16777216 * b[3]
}

/// The entry that `DIRENT_SZ` bytes hold: the name field, then the inode number.
pub open spec fn decode_entry(b: Seq<u8>) -> DirEntryView {
    DirEntryView {
        name: until_nul(b.take(NAME_FIELD_SZ as int)),
        inode_id: le_value(b.skip(NAME_FIELD_SZ as int)) as u32,
    }
}

/// The bytes of an entry: the name, zero bytes up to the end of the name field, and the inode
/// number with its least significant byte first.
pub open spec fn encode_entry(name: Seq<u8>, inode_id: u32) -> Seq<u8> {
    Seq::new(
        DIRENT_SZ as nat,
        |i: int|
            if i < name.len() && i < NAME_FIELD_SZ {
                name[i]
            } else if i < NAME_FIELD_SZ {
                0u8
            } else if i == NAME_FIELD_SZ {
                (inode_id % 256) as u8
            } else if i == NAME_FIELD_SZ + 1 {
                (inode_id / 256 % 256) as u8
            } else if i == NAME_FIELD_SZ + 2 {
                (inode_id / 65536 % 256) as u8
            } else {
                (inode_id / 16777216) as u8
            },
    )
}

/// An entry reads back as it was written: the inode number, and the name up to its first zero
/// byte, which for a name without zero bytes is the whole name.
pub proof fn entry_roundtrip(name: Seq<u8>, inode_id: u32)
    requires
        name.len() <= NAME_LENGTH_LIMIT,
    ensures
        decode_entry(encode_entry(name, inode_id)).inode_id == inode_id,
        decode_entry(encode_entry(name, inode_id)).name == until_nul(name),
        !name.contains(0u8) ==> until_nul(name) == name,
{
    let b = encode_entry(name, inode_id);
    let field = b.take(NAME_FIELD_SZ as int);
    let f = seqs::first_index(name, is_nul());
    seqs::lemma_first_index(name, is_nul());
    assert forall|j: int| 0 <= j < f implies !is_nul()(#[trigger] field[j]) by {
        assert(!is_nul()(name[j]));
    }
    assert(f < name.len() ==> is_nul()(name[f]));
    seqs::lemma_first_index_is(field, is_nul(), f);
    assert(field.take(f) =~= name.take(f));
    let id = b.skip(NAME_FIELD_SZ as int);
    assert(id[0] == b[28] && id[1] == b[29] && id[2] == b[30] && id[3] == b[31]);
    if !name.contains(0u8) {
        if f < name.len() {
            assert(name[f] == 0u8);
        }
        assert(name.take(f) =~= name);
    }
}

/// The string that the bytes hold, or `None` if they are no UTF-8.
///
/// Calls `String::from_utf8`. Trusted: it succeeds exactly on valid UTF-8, and the string then
/// holds the characters that the bytes encode.
#[verifier::external_body]
fn string_from_utf8(bytes: Vec<u8>) -> (s: Option<String>)
    ensures
        match s {
            Some(t) => valid_utf8(bytes@) && t@ == decode_utf8(bytes@),
            None => !valid_utf8(bytes@),
        },
{
    String::from_utf8(bytes).ok()
}

/// A directory entry as it stands on disk.
pub struct DirEntry {
    bytes: Vec<u8>,
}

impl View for DirEntry {
    type V = Seq<u8>;

    closed spec fn view(&self) -> Seq<u8> {
        self.bytes@
    }
}

impl DirEntry {
    /// An entry of zero bytes.
    pub fn empty() -> (entry: Self)
        ensures
            entry@ == seqs::zeros(DIRENT_SZ as nat),
    {
        let mut bytes: Vec<u8> = Vec::new();
        let mut i: usize = 0;
        while i < DIRENT_SZ
            invariant
                i <= DIRENT_SZ,
                bytes@ == seqs::zeros(i as nat),
            decreases DIRENT_SZ - i,
        {
            bytes.push(0);
            i = i + 1;
            assert(bytes@ =~= seqs::zeros(i as nat));
        }
        DirEntry { bytes }
    }

    /// The entry that gives inode `inode_id` the name `name`.
    pub fn new(name: &str, inode_id: u32) -> (entry: Self)
        requires
            encode_utf8(name@).len() <= NAME_LENGTH_LIMIT,
        ensures
            entry@ == encode_entry(encode_utf8(name@), inode_id),
    {
        let text = name.as_bytes();
        let mut bytes: Vec<u8> = Vec::new();
        let mut i: usize = 0;
        while i < NAME_FIELD_SZ
            invariant
                i <= NAME_FIELD_SZ,
                text@ == encode_utf8(name@),
                bytes@ == encode_entry(encode_utf8(name@), inode_id).take(i as int),
            decreases NAME_FIELD_SZ - i,
        {
            if i < text.len() {
                bytes.push(text[i]);
            } else {
                bytes.push(0);
            }
            i = i + 1;
            assert(bytes@ =~= encode_entry(encode_utf8(name@), inode_id).take(i as int));
        }
        bytes.push((inode_id % 256) as u8);
        bytes.push((inode_id / 256 % 256) as u8);
        bytes.push((inode_id / 65536 % 256) as u8);
        bytes.push((inode_id / 16777216) as u8);
        assert(bytes@ =~= encode_entry(encode_utf8(name@), inode_id));
        DirEntry { bytes }
    }

    /// The bytes of the name.
    pub fn name_bytes(&self) -> (name: Vec<u8>)
        requires
            self@.len() == DIRENT_SZ,
        ensures
            name@ == decode_entry(self@).name,
    {
        let mut name: Vec<u8> = Vec::new();
        let mut i: usize = 0;
        let ghost field = self@.take(NAME_FIELD_SZ as int);
        while i < NAME_FIELD_SZ && self.bytes[i] != 0
            invariant
                i <= NAME_FIELD_SZ,
                self@.len() == DIRENT_SZ,
                field == self@.take(NAME_FIELD_SZ as int),
                name@ == field.take(i as int),
                forall|j: int| 0 <= j < i ==> field[j] != 0,
            decreases NAME_FIELD_SZ - i,
        {
            name.push(self.bytes[i]);
            i = i + 1;
            assert(name@ =~= field.take(i as int));
        }
        proof {
            seqs::lemma_first_index_is(field, is_nul(), i as int);
        }
        name
    }

    /// The name.
    pub fn name(&self) -> (name: String)
        requires
            self@.len() == DIRENT_SZ,
            valid_utf8(decode_entry(self@).name),
        ensures
            name@ == decode_utf8(decode_entry(self@).name),
    {
        match string_from_utf8(self.name_bytes()) {
            Some(name) => name,
            None => String::new(),
        }
    }

    /// Whether the name is UTF-8.
    pub fn has_text_name(&self) -> (yes: bool)
        requires
            self@.len() == DIRENT_SZ,
        ensures
            yes == valid_utf8(decode_entry(self@).name),
    {
        string_from_utf8(self.name_bytes()).is_some()
    }

    /// The number of the inode.
    pub fn inode_id(&self) -> (inode_id: u32)
        requires
            self@.len() == DIRENT_SZ,
        ensures
            inode_id == decode_entry(self@).inode_id,
    {
        let ghost id = self@.skip(NAME_FIELD_SZ as int);
        assert(id[0] == self@[28] && id[1] == self@[29] && id[2] == self@[30] && id[3] == self@[31]);
        self.bytes[28] as u32 + 256 * (self.bytes[29] as u32) + 65536 * (self.bytes[30] as u32)
            + 16777216 * (self.bytes[31] as u32)
    }

    /// The bytes, to be written to disk.
    pub fn as_bytes(&self) -> (bytes: &[u8])
        ensures
            bytes@ == self@,
    {
        self.bytes.as_slice()
    }

    /// The bytes, to be read from disk.
    pub fn as_bytes_mut(&mut self) -> (bytes: &mut [u8])
        ensures
            bytes@ == old(self)@,
            final(self)@ == final(bytes)@,
    {
        self.bytes.as_mut_slice()
    }
}

} // verus!
