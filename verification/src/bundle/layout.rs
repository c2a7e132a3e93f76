//! What the bytes of a bundle are, and what reading them gives.
use vstd::prelude::*;
use vstd::utf8::{decode_utf8, encode_utf8, valid_utf8};

use crate::bundle::path::{relative_path, PathStyle};
use crate::bundle::{
    BundleEntryKind, BundleModel, EntryModel, DIRECTORY, FILE, MAGIC, SYMLINK, VERSION,
};
use crate::error::ErrorModel;
use crate::wire::{be_bytes, be_value};

verus! {

/// The tag byte written for an entry kind.
pub open spec fn kind_tag(kind: BundleEntryKind) -> u8 {
    match kind {
        BundleEntryKind::File => FILE,
        BundleEntryKind::Directory => DIRECTORY,
        BundleEntryKind::Symlink => SYMLINK,
    }
}

/// The entry kind that a tag byte stands for, if any.
pub open spec fn kind_of_tag(tag: u8) -> Option<BundleEntryKind> {
    if tag == FILE {
        Some(BundleEntryKind::File)
    } else if tag == DIRECTORY {
        Some(BundleEntryKind::Directory)
    } else if tag == SYMLINK {
        Some(BundleEntryKind::Symlink)
    } else {
        None
    }
}

/// The bytes written for one entry.
pub open spec fn entry_bytes(e: EntryModel) -> Seq<u8> {
    let path = encode_utf8(e.path);
    seq![kind_tag(e.kind)] + be_bytes(e.mode as nat, 4) + be_bytes(path.len(), 4) + be_bytes(
        e.data.len(),
        8,
    ) + path + e.data
}

/// The bytes written for a sequence of entries, one after the other.
pub open spec fn entries_bytes(entries: Seq<EntryModel>) -> Seq<u8>
    decreases entries.len(),
{
    if entries.len() == 0 {
        Seq::empty()
    } else {
        entries_bytes(entries.drop_last()) + entry_bytes(entries.last())
    }
}

/// The bytes written for a bundle. The entry count is written in four
/// bytes and the entrypoint length in two: a larger value is cut to its
/// low bytes.
pub open spec fn bundle_bytes(b: BundleModel) -> Seq<u8> {
    let entrypoint = encode_utf8(b.entrypoint);
    MAGIC@ + be_bytes(VERSION as nat, 2) + be_bytes(b.entries.len(), 4) + be_bytes(
        entrypoint.len(),
        2,
    ) + entrypoint + entries_bytes(b.entries)
}

/// Whether every entry path fits the four-byte length field.
pub open spec fn paths_fit(entries: Seq<EntryModel>) -> bool {
    forall|i: int| 0 <= i < entries.len() ==> encode_utf8(#[trigger] entries[i].path).len() <= u32::MAX
}

/// What packing a bundle gives: its bytes, or the error for a path too
/// long for its length field.
pub open spec fn packed(b: BundleModel) -> Result<Seq<u8>, ErrorModel> {
    if paths_fit(b.entries) {
        Ok(bundle_bytes(b))
    } else {
        Err(ErrorModel::MalformedBundle("bundle path is too long"@))
    }
}

/// Taking `n` bytes of `s` at `cursor`: the bytes and the cursor after
/// them, or the error for an end past the addressable range or past `s`.
pub open spec fn taken(s: Seq<u8>, cursor: int, n: int) -> Result<(Seq<u8>, int), ErrorModel> {
    if cursor + n > usize::MAX {
        Err(ErrorModel::MalformedBundle("bundle offset overflow"@))
    } else if cursor + n > s.len() {
        Err(ErrorModel::MalformedBundle("bundle is truncated"@))
    } else {
        Ok((s.subrange(cursor, cursor + n), cursor + n))
    }
}

/// Reading the big-endian number held in the `n` bytes of `s` at `cursor`:
/// the number and the cursor after it, or the error of [`taken`].
pub open spec fn read_be_at(s: Seq<u8>, cursor: int, n: int) -> Result<(nat, int), ErrorModel> {
    match taken(s, cursor, n) {
        Err(e) => Err(e),
        Ok((bytes, c)) => Ok((be_value(bytes), c)),
    }
}

/// Reading UTF-8 text that must name a relative path: the text, or the
/// error carrying `not_utf8` when the bytes are not UTF-8, or the
/// invalid-path error.
pub open spec fn relative_text(bytes: Seq<u8>, not_utf8: Seq<char>, style: PathStyle) -> Result<
    Seq<char>,
    ErrorModel,
> {
    if !valid_utf8(bytes) {
        Err(ErrorModel::MalformedBundle(not_utf8))
    } else if !relative_path(bytes, style) {
        Err(ErrorModel::InvalidBundlePath)
    } else {
        Ok(decode_utf8(bytes))
    }
}

/// Reading the bundle header of `s`, with paths read in `style`: the entrypoint, the number of
/// entries and the cursor after the header, or the first check that failed.
pub open spec fn parsed_header(s: Seq<u8>, style: PathStyle) -> Result<(Seq<char>, u32, int), ErrorModel> {
    match taken(s, 0, 8) {
        Err(e) => Err(e),
        Ok((magic, c1)) => if magic != MAGIC@ {
            Err(ErrorModel::MalformedBundle("bundle magic is invalid"@))
        } else {
            match read_be_at(s, c1, 2) {
                Err(e) => Err(e),
                Ok((version, c2)) => if version != VERSION {
                    Err(ErrorModel::UnsupportedVersion(version as u16))
                } else {
                    match read_be_at(s, c2, 4) {
                        Err(e) => Err(e),
                        Ok((count, c3)) => match read_be_at(s, c3, 2) {
                            Err(e) => Err(e),
                            Ok((len, c4)) => match taken(s, c4, len as int) {
                                Err(e) => Err(e),
                                Ok((entrypoint, c5)) => match relative_text(
                                    entrypoint,
                                    "bundle entrypoint is not UTF-8"@,
                                    style,
                                ) {
                                    Err(e) => Err(e),
                                    Ok(text) => Ok((text, count as u32, c5)),
                                },
                            },
                        },
                    }
                },
            }
        },
    }
}

/// The failure of the target check for an entry of `kind` with `data`:
/// only a symbolic link is checked, and its target must be UTF-8 text
/// naming a relative path.
pub open spec fn link_target_error(kind: BundleEntryKind, data: Seq<u8>, style: PathStyle) -> Option<
    ErrorModel,
> {
    match kind {
        BundleEntryKind::Symlink => match relative_text(
            data,
            "bundle symlink target is not UTF-8"@,
            style,
        ) {
            Err(e) => Some(e),
            Ok(_) => None,
        },
        _ => None,
    }
}

/// Reading the entry of `s` that starts at `cursor`: the entry and the
/// cursor after it, or the first check that failed. The data of a symbolic
/// link, its target, must be UTF-8 text naming a relative path; it is
/// checked once the data has been taken.
pub open spec fn parsed_entry(s: Seq<u8>, cursor: int, style: PathStyle) -> Result<(EntryModel, int), ErrorModel> {
    match taken(s, cursor, 1) {
        Err(e) => Err(e),
        Ok((tag, c1)) => match kind_of_tag(tag[0]) {
            None => Err(ErrorModel::InvalidBundleEntryType),
            Some(kind) => match read_be_at(s, c1, 4) {
                Err(e) => Err(e),
                Ok((mode, c2)) => match read_be_at(s, c2, 4) {
                    Err(e) => Err(e),
                    Ok((path_len, c3)) => match read_be_at(s, c3, 8) {
                        Err(e) => Err(e),
                        Ok((data_len, c4)) => if data_len > usize::MAX {
                            Err(ErrorModel::MalformedBundle("bundle data length is invalid"@))
                        } else {
                            match taken(s, c4, path_len as int) {
                                Err(e) => Err(e),
                                Ok((path, c5)) => match relative_text(
                                    path,
                                    "bundle path is not UTF-8"@,
                                    style,
                                ) {
                                    Err(e) => Err(e),
                                    Ok(text) => match taken(s, c5, data_len as int) {
                                        Err(e) => Err(e),
                                        Ok((data, c6)) => match link_target_error(kind, data, style) {
                                            Some(e) => Err(e),
                                            None => Ok(
                                                (
                                                    EntryModel {
                                                        path: text,
                                                        kind,
                                                        mode: mode as u32,
                                                        data,
                                                    },
                                                    c6,
                                                ),
                                            ),
                                        },
                                    },
                                },
                            }
                        },
                    },
                },
            },
        },
    }
}

/// Reading `count` entries one after the other from `cursor`: the entries
/// and the cursor after the last, or the first failure.
pub open spec fn parsed_entries(s: Seq<u8>, cursor: int, count: nat, style: PathStyle) -> Result<
    (Seq<EntryModel>, int),
    ErrorModel,
>
    decreases count,
{
    if count == 0 {
        Ok((Seq::empty(), cursor))
    } else {
        match parsed_entries(s, cursor, (count - 1) as nat, style) {
            Err(e) => Err(e),
            Ok((entries, c)) => match parsed_entry(s, c, style) {
                Err(e) => Err(e),
                Ok((entry, c2)) => Ok((entries.push(entry), c2)),
            },
        }
    }
}

/// Once reading entries has failed, reading more of them fails the same way.
pub proof fn lemma_entries_failure_persists(
    s: Seq<u8>,
    cursor: int,
    k: nat,
    n: nat,
    style: PathStyle,
)
    requires
        k <= n,
        parsed_entries(s, cursor, k, style) is Err,
    ensures
        parsed_entries(s, cursor, n, style) == parsed_entries(s, cursor, k, style),
    decreases n,
{
    if n > k {
        lemma_entries_failure_persists(s, cursor, k, (n - 1) as nat, style);
    }
}

/// Reading a whole bundle from `s`, with paths read in `style`: the header, every entry it announces,
/// and nothing after them.
pub open spec fn parsed_bundle(s: Seq<u8>, style: PathStyle) -> Result<BundleModel, ErrorModel> {
    match parsed_header(s, style) {
        Err(e) => Err(e),
        Ok((entrypoint, count, c)) => match parsed_entries(s, c, count as nat, style) {
            Err(e) => Err(e),
            Ok((entries, end)) => if end != s.len() {
                Err(ErrorModel::TrailingBundleData)
            } else {
                Ok(BundleModel { entrypoint, entries })
            },
        },
    }
}

/// Whether `s` opens with the bundle magic.
pub open spec fn starts_with_magic(s: Seq<u8>) -> bool {
    s.len() >= 8 && s.subrange(0, 8) == MAGIC@
}

} // verus!
