//! The bundle layout: an application directory tree as one payload.
//!
//! A bundle is the magic `VSLBND01`, a version, the number of entries, the
//! length and UTF-8 bytes of the entrypoint path, then each entry in turn:
//! its kind, its mode, the lengths of its path and data, its path and its
//! data. All integers are big-endian.
use vstd::prelude::*;

use vstd::slice::slice_to_vec;
use vstd::utf8::{encode_utf8, encode_utf8_decode_utf8};

use crate::bundle::layout::{
    entries_bytes, entry_bytes, kind_of_tag, lemma_entries_failure_persists, packed, parsed_bundle,
    parsed_entries, parsed_entry, parsed_header, paths_fit, read_be_at, relative_text,
    starts_with_magic, taken,
};
use crate::bundle::path::{string_from_utf8, validate_relative, PathStyle};
use crate::error::{malformed_bundle, Error, ErrorModel};
use crate::wire::{
    bytes_eq, lemma_be_value_bound, lemma_pow256_values, push_be, push_bytes, read_be,
};

pub mod laws;
pub mod layout;
pub mod order;
pub mod path;

verus! {

/// The eight bytes that open every bundle.
pub const MAGIC: [u8; 8] = [86u8, 83u8, 76u8, 66u8, 78u8, 68u8, 48u8, 49u8];

/// The only bundle version this library writes and accepts.
pub const VERSION: u16 = 1;

/// Tag of a regular file entry.
pub const FILE: u8 = 1;

/// Tag of a directory entry.
pub const DIRECTORY: u8 = 2;

/// Tag of a symbolic link entry.
pub const SYMLINK: u8 = 3;

/// One member of a bundle.
#[derive(Clone, Debug, PartialEq, Eq)]
pub struct BundleEntry {
    /// Path relative to the bundle root.
    pub path: String,
    pub kind: BundleEntryKind,
    /// Permission bits.
    pub mode: u32,
    /// File contents, or the target of a symbolic link; empty for a directory.
    pub data: Vec<u8>,
}

/// What a bundle member is.
#[derive(Clone, Debug, PartialEq, Eq)]
pub enum BundleEntryKind {
    File,
    Directory,
    Symlink,
}

/// A whole bundle: the path of the program to run, and the members.
#[derive(Clone, Debug, PartialEq, Eq)]
pub struct Bundle {
    pub entrypoint: String,
    pub entries: Vec<BundleEntry>,
}

/// The mathematical value of a [`BundleEntry`].
pub struct EntryModel {
    pub path: Seq<char>,
    pub kind: BundleEntryKind,
    pub mode: u32,
    pub data: Seq<u8>,
}

/// The mathematical value of a [`Bundle`].
pub struct BundleModel {
    pub entrypoint: Seq<char>,
    pub entries: Seq<EntryModel>,
}

impl View for BundleEntry {
    type V = EntryModel;

    open spec fn view(&self) -> EntryModel {
        EntryModel { path: self.path@, kind: self.kind, mode: self.mode, data: self.data@ }
    }
}

/// The values of a sequence of entries.
pub open spec fn entries_model(entries: Seq<BundleEntry>) -> Seq<EntryModel> {
    entries.map_values(|e: BundleEntry| e@)
}

impl View for Bundle {
    type V = BundleModel;

    open spec fn view(&self) -> BundleModel {
        BundleModel { entrypoint: self.entrypoint@, entries: entries_model(self.entries@) }
    }
}

/// Whether `payload` opens with the bundle magic.
pub fn is_bundle(payload: &[u8]) -> (r: bool)
    ensures
        r == starts_with_magic(payload@),
{
    payload.len() >= 8 && bytes_eq(&payload[0..8], MAGIC.as_slice())
}

/// Takes the `length` bytes of `input` at `*cursor` and moves the cursor
/// past them; fails, leaving the cursor, when the end would overflow or
/// lie past the input.
pub fn take<'a>(input: &'a [u8], cursor: &mut usize, length: usize) -> (r: Result<&'a [u8], Error>)
    ensures
        match r {
            Ok(bytes) => taken(input@, *old(cursor) as int, length as int) == Ok::<
                (Seq<u8>, int),
                ErrorModel,
            >((bytes@, *final(cursor) as int)),
            Err(e) => taken(input@, *old(cursor) as int, length as int) == Err::<
                (Seq<u8>, int),
                ErrorModel,
            >(e@) && *final(cursor) == *old(cursor),
        },
{
    let end = match cursor.checked_add(length) {
        Some(end) => end,
        None => return Err(malformed_bundle("bundle offset overflow")),
    };
    if end > input.len() {
        return Err(malformed_bundle("bundle is truncated"));
    }
    let bytes = &input[*cursor..end];
    *cursor = end;
    Ok(bytes)
}

/// Reads a big-endian `u16` at `*cursor` and moves the cursor past it.
pub fn read_u16(input: &[u8], cursor: &mut usize) -> (r: Result<u16, Error>)
    ensures
        match r {
            Ok(v) => read_be_at(input@, *old(cursor) as int, 2) == Ok::<(nat, int), ErrorModel>(
                (v as nat, *final(cursor) as int),
            ),
            Err(e) => read_be_at(input@, *old(cursor) as int, 2) == Err::<(nat, int), ErrorModel>(
                e@,
            ) && *final(cursor) == *old(cursor),
        },
{
    let bytes = match take(input, cursor, 2) {
        Ok(bytes) => bytes,
        Err(e) => return Err(e),
    };
    proof {
        lemma_pow256_values();
        lemma_be_value_bound(bytes@);
    }
    Ok(read_be(bytes) as u16)
}

/// Reads a big-endian `u32` at `*cursor` and moves the cursor past it.
pub fn read_u32(input: &[u8], cursor: &mut usize) -> (r: Result<u32, Error>)
    ensures
        match r {
            Ok(v) => read_be_at(input@, *old(cursor) as int, 4) == Ok::<(nat, int), ErrorModel>(
                (v as nat, *final(cursor) as int),
            ),
            Err(e) => read_be_at(input@, *old(cursor) as int, 4) == Err::<(nat, int), ErrorModel>(
                e@,
            ) && *final(cursor) == *old(cursor),
        },
{
    let bytes = match take(input, cursor, 4) {
        Ok(bytes) => bytes,
        Err(e) => return Err(e),
    };
    proof {
        lemma_pow256_values();
        lemma_be_value_bound(bytes@);
    }
    Ok(read_be(bytes) as u32)
}

/// Reads a big-endian `u64` at `*cursor` and moves the cursor past it.
pub fn read_u64(input: &[u8], cursor: &mut usize) -> (r: Result<u64, Error>)
    ensures
        match r {
            Ok(v) => read_be_at(input@, *old(cursor) as int, 8) == Ok::<(nat, int), ErrorModel>(
                (v as nat, *final(cursor) as int),
            ),
            Err(e) => read_be_at(input@, *old(cursor) as int, 8) == Err::<(nat, int), ErrorModel>(
                e@,
            ) && *final(cursor) == *old(cursor),
        },
{
    let bytes = match take(input, cursor, 8) {
        Ok(bytes) => bytes,
        Err(e) => return Err(e),
    };
    Ok(read_be(bytes))
}

/// Reads `bytes` as UTF-8 text naming a relative path in `style`; fails
/// with a malformed-bundle error carrying `not_utf8` when they are not UTF-8.
pub fn read_path_text(bytes: &[u8], not_utf8: &str, style: PathStyle) -> (r: Result<String, Error>)
    ensures
        match r {
            Ok(text) => relative_text(bytes@, not_utf8@, style) == Ok::<Seq<char>, ErrorModel>(
                text@,
            ),
            Err(e) => relative_text(bytes@, not_utf8@, style) == Err::<Seq<char>, ErrorModel>(e@),
        },
{
    let text = match string_from_utf8(slice_to_vec(bytes)) {
        Some(text) => text,
        None => return Err(malformed_bundle(not_utf8)),
    };
    proof {
        encode_utf8_decode_utf8(text@);
    }
    match validate_relative(text.as_str(), style) {
        Ok(()) => Ok(text),
        Err(e) => Err(e),
    }
}

/// The target of a symbolic link entry, read from its data: UTF-8 text
/// naming a relative path in `style`.
pub fn symlink_target(data: &[u8], style: PathStyle) -> (r: Result<String, Error>)
    ensures
        match r {
            Ok(target) => relative_text(data@, "bundle symlink target is not UTF-8"@, style) == Ok::<
                Seq<char>,
                ErrorModel,
            >(target@),
            Err(e) => relative_text(data@, "bundle symlink target is not UTF-8"@, style) == Err::<
                Seq<char>,
                ErrorModel,
            >(e@),
        },
{
    read_path_text(data, "bundle symlink target is not UTF-8", style)
}

/// The path, relative to the bundle root, of the program that a bundle
/// named `name` runs.
pub fn entrypoint_path(name: &str) -> (path: String)
    ensures
        path@ == "Contents/MacOS/"@ + name@,
{
    let mut path = String::from_str("Contents/MacOS/");
    path.append(name);
    path
}

/// Reads the bundle header of `payload`, with paths read in `style`: the
/// entrypoint, the number of entries, and the offset of the first entry.
pub fn unpack_header(payload: &[u8], style: PathStyle) -> (r: Result<(String, u32, usize), Error>)
    ensures
        match r {
            Ok((entrypoint, count, cursor)) => parsed_header(payload@, style) == Ok::<
                (Seq<char>, u32, int),
                ErrorModel,
            >((entrypoint@, count, cursor as int)),
            Err(e) => parsed_header(payload@, style) == Err::<(Seq<char>, u32, int), ErrorModel>(e@),
        },
{
    let mut cursor: usize = 0;
    let magic = match take(payload, &mut cursor, 8) {
        Ok(bytes) => bytes,
        Err(e) => return Err(e),
    };
    if !bytes_eq(magic, MAGIC.as_slice()) {
        return Err(malformed_bundle("bundle magic is invalid"));
    }
    let version = match read_u16(payload, &mut cursor) {
        Ok(v) => v,
        Err(e) => return Err(e),
    };
    if version != VERSION {
        return Err(Error::UnsupportedVersion(version));
    }
    let count = match read_u32(payload, &mut cursor) {
        Ok(v) => v,
        Err(e) => return Err(e),
    };
    let entrypoint_len = match read_u16(payload, &mut cursor) {
        Ok(v) => v as usize,
        Err(e) => return Err(e),
    };
    let entrypoint_bytes = match take(payload, &mut cursor, entrypoint_len) {
        Ok(bytes) => bytes,
        Err(e) => return Err(e),
    };
    let entrypoint = match read_path_text(entrypoint_bytes, "bundle entrypoint is not UTF-8", style) {
        Ok(text) => text,
        Err(e) => return Err(e),
    };
    Ok((entrypoint, count, cursor))
}

/// Reads the entry of `payload` at `*cursor`, with paths read in `style`,
/// and moves the cursor past it. The target of a symbolic link is checked
/// as [`symlink_target`] checks it.
pub fn unpack_entry(payload: &[u8], cursor: &mut usize, style: PathStyle) -> (r: Result<BundleEntry, Error>)
    ensures
        match r {
            Ok(entry) => parsed_entry(payload@, *old(cursor) as int, style) == Ok::<
                (EntryModel, int),
                ErrorModel,
            >((entry@, *final(cursor) as int)),
            Err(e) => parsed_entry(payload@, *old(cursor) as int, style) == Err::<
                (EntryModel, int),
                ErrorModel,
            >(e@),
        },
{
    let tag = match take(payload, cursor, 1) {
        Ok(bytes) => bytes[0],
        Err(e) => return Err(e),
    };
    let kind = if tag == FILE {
        BundleEntryKind::File
    } else if tag == DIRECTORY {
        BundleEntryKind::Directory
    } else if tag == SYMLINK {
        BundleEntryKind::Symlink
    } else {
        return Err(Error::InvalidBundleEntryType);
    };
    assert(kind_of_tag(tag) == Some(kind));
    let mode = match read_u32(payload, cursor) {
        Ok(v) => v,
        Err(e) => return Err(e),
    };
    let path_len = match read_u32(payload, cursor) {
        Ok(v) => v as usize,
        Err(e) => return Err(e),
    };
    let data_len = match read_u64(payload, cursor) {
        Ok(v) => v,
        Err(e) => return Err(e),
    };
    if data_len > usize::MAX as u64 {
        return Err(malformed_bundle("bundle data length is invalid"));
    }
    let data_len = data_len as usize;
    let path_bytes = match take(payload, cursor, path_len) {
        Ok(bytes) => bytes,
        Err(e) => return Err(e),
    };
    let path = match read_path_text(path_bytes, "bundle path is not UTF-8", style) {
        Ok(text) => text,
        Err(e) => return Err(e),
    };
    let data = match take(payload, cursor, data_len) {
        Ok(bytes) => bytes,
        Err(e) => return Err(e),
    };
    match kind {
        BundleEntryKind::Symlink => match symlink_target(data, style) {
            Ok(_) => {},
            Err(e) => return Err(e),
        },
        _ => {},
    }
    Ok(BundleEntry { path, kind, mode, data: slice_to_vec(data) })
}

/// Accepts the end of the entries at `cursor` when nothing follows them.
pub fn unpack_end(payload: &[u8], cursor: usize) -> (r: Result<(), Error>)
    ensures
        r is Ok <==> cursor == payload@.len(),
        r matches Err(e) ==> e is TrailingBundleData,
{
    if cursor != payload.len() {
        return Err(Error::TrailingBundleData);
    }
    Ok(())
}

/// Reads a whole bundle from `payload`, with paths read in `style`: its
/// header, every entry that the header announces, and nothing after them.
pub fn unpack(payload: &[u8], style: PathStyle) -> (r: Result<Bundle, Error>)
    ensures
        match r {
            Ok(bundle) => parsed_bundle(payload@, style) == Ok::<BundleModel, ErrorModel>(bundle@),
            Err(e) => parsed_bundle(payload@, style) == Err::<BundleModel, ErrorModel>(e@),
        },
{
    let (entrypoint, count, start) = match unpack_header(payload, style) {
        Ok(header) => header,
        Err(e) => return Err(e),
    };
    let mut cursor = start;
    let mut entries: Vec<BundleEntry> = Vec::new();
    let mut i: u32 = 0;
    assert(entries_model(entries@) =~= Seq::<EntryModel>::empty());
    while i < count
        invariant
            i <= count,
            parsed_header(payload@, style) == Ok::<(Seq<char>, u32, int), ErrorModel>(
                (entrypoint@, count, start as int),
            ),
            parsed_entries(payload@, start as int, i as nat, style) == Ok::<(Seq<EntryModel>, int), ErrorModel>(
                (entries_model(entries@), cursor as int),
            ),
        decreases count - i,
    {
        let ghost before = entries@;
        let entry = match unpack_entry(payload, &mut cursor, style) {
            Ok(entry) => entry,
            Err(e) => {
                proof {
                    lemma_entries_failure_persists(
                        payload@,
                        start as int,
                        (i + 1) as nat,
                        count as nat,
                        style,
                    );
                }
                return Err(e);
            },
        };
        entries.push(entry);
        assert(entries_model(entries@) =~= entries_model(before).push(entry@));
        i = i + 1;
    }
    match unpack_end(payload, cursor) {
        Ok(()) => {},
        Err(e) => return Err(e),
    }
    Ok(Bundle { entrypoint, entries })
}

/// Writes `bundle` in the bundle layout. Fails when an entry path is too
/// long for its four-byte length field.
pub fn pack(bundle: &Bundle) -> (r: Result<Vec<u8>, Error>)
    ensures
        match r {
            Ok(bytes) => packed(bundle@) == Ok::<Seq<u8>, ErrorModel>(bytes@),
            Err(e) => packed(bundle@) == Err::<Seq<u8>, ErrorModel>(e@),
        },
{
    let ghost model = bundle@;
    let mut output: Vec<u8> = Vec::new();
    push_bytes(&mut output, MAGIC.as_slice());
    push_be(&mut output, VERSION as u64, 2);
    push_be(&mut output, bundle.entries.len() as u64, 4);
    let entrypoint = bundle.entrypoint.as_str().as_bytes();
    push_be(&mut output, entrypoint.len() as u64, 2);
    push_bytes(&mut output, entrypoint);
    let ghost head = output@;
    assert(model.entries.take(0) =~= Seq::<EntryModel>::empty());
    let mut i: usize = 0;
    while i < bundle.entries.len()
        invariant
            i <= bundle.entries@.len(),
            model == bundle@,
            model.entries.len() == bundle.entries@.len(),
            head == MAGIC@ + crate::wire::be_bytes(VERSION as nat, 2) + crate::wire::be_bytes(
                model.entries.len(),
                4,
            ) + crate::wire::be_bytes(encode_utf8(model.entrypoint).len(), 2) + encode_utf8(
                model.entrypoint,
            ),
            output@ == head + entries_bytes(model.entries.take(i as int)),
            paths_fit(model.entries.take(i as int)),
        decreases bundle.entries@.len() - i,
    {
        let entry = &bundle.entries[i];
        assert(model.entries[i as int] == entry@);
        let path = entry.path.as_str().as_bytes();
        if path.len() > u32::MAX as usize {
            assert(!paths_fit(model.entries));
            return Err(malformed_bundle("bundle path is too long"));
        }
        let tag = match entry.kind {
            BundleEntryKind::File => FILE,
            BundleEntryKind::Directory => DIRECTORY,
            BundleEntryKind::Symlink => SYMLINK,
        };
        let ghost before = output@;
        output.push(tag);
        push_be(&mut output, entry.mode as u64, 4);
        push_be(&mut output, path.len() as u64, 4);
        push_be(&mut output, entry.data.len() as u64, 8);
        push_bytes(&mut output, path);
        push_bytes(&mut output, entry.data.as_slice());
        assert(output@ =~= before + entry_bytes(entry@));
        assert(model.entries.take(i + 1).drop_last() =~= model.entries.take(i as int));
        assert(output@ =~= head + entries_bytes(model.entries.take(i + 1)));
        i = i + 1;
        assert forall|j: int| 0 <= j < model.entries.take(i as int).len() implies encode_utf8(
            #[trigger] model.entries.take(i as int)[j].path,
        ).len() <= u32::MAX by {
            if j < i - 1 {
                assert(model.entries.take(i - 1)[j] == model.entries.take(i as int)[j]);
            }
        }
    }
    assert(model.entries.take(i as int) =~= model.entries);
    Ok(output)
}

} // verus!
