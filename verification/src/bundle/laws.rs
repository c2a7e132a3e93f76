//! What reading gives back of what packing wrote, and what every bundle
//! that reads successfully satisfies.
use vstd::prelude::*;
use vstd::utf8::{
    decode_utf8_encode_utf8, valid_utf8, encode_utf8, encode_utf8_decode_utf8, encode_utf8_valid_utf8,
};

use crate::bundle::layout::{
    packed, bundle_bytes, entries_bytes, entry_bytes, kind_of_tag, kind_tag, parsed_bundle, parsed_entries,
    parsed_entry, parsed_header, paths_fit, read_be_at, relative_text, starts_with_magic, taken,
};
use crate::bundle::path::{relative_path, PathStyle};
use crate::bundle::{BundleEntryKind, BundleModel, EntryModel, MAGIC, VERSION};
use crate::error::ErrorModel;
use crate::wire::{
    be_value, lemma_be_bytes_of_value, lemma_be_value_bound, be_bytes, lemma_be_bytes_index, lemma_be_bytes_len, lemma_be_roundtrip, lemma_pow256_values, pow256,
};

verus! {

/// Whether the data of a symbolic link entry is UTF-8 text naming a
/// relative path free of parent components in `style`.
pub open spec fn link_target_ok(e: EntryModel, style: PathStyle) -> bool {
    e.kind is Symlink ==> valid_utf8(e.data) && relative_path(e.data, style)
}

/// What packing needs of a bundle for reading to give it back: the
/// entrypoint, every entry path and every link target are relative and
/// free of parent components (a link target also UTF-8), the entrypoint
/// fits its two-byte length field, every path fits its four-byte length
/// field, the entry count fits its four-byte field, and the whole layout
/// fits in memory.
pub open spec fn packable(b: BundleModel, style: PathStyle) -> bool {
    &&& relative_path(encode_utf8(b.entrypoint), style)
    &&& encode_utf8(b.entrypoint).len() <= u16::MAX
    &&& b.entries.len() <= u32::MAX
    &&& paths_fit(b.entries)
    &&& forall|i: int| 0 <= i < b.entries.len() ==> relative_path(
        encode_utf8(#[trigger] b.entries[i].path),
        style,
    )
    &&& forall|i: int| 0 <= i < b.entries.len() ==> link_target_ok(#[trigger] b.entries[i], style)
    &&& bundle_bytes(b).len() <= usize::MAX
}

/// Taking bytes that lie inside `s` gives exactly those bytes.
proof fn lemma_taken_piece(s: Seq<u8>, c: int, piece: Seq<u8>)
    requires
        0 <= c,
        c + piece.len() <= s.len() <= usize::MAX,
        s.subrange(c, c + piece.len()) == piece,
    ensures
        taken(s, c, piece.len() as int) == Ok::<(Seq<u8>, int), ErrorModel>((piece, c + piece.len())),
{
}

/// Text naming a relative path, written as UTF-8, reads back as that text:
/// an entry path, an entrypoint or a symbolic link target.
pub proof fn lemma_relative_text_of(text: Seq<char>, not_utf8: Seq<char>, style: PathStyle)
    requires
        relative_path(encode_utf8(text), style),
    ensures
        relative_text(encode_utf8(text), not_utf8, style) == Ok::<Seq<char>, ErrorModel>(text),
{
    encode_utf8_valid_utf8(text);
    encode_utf8_decode_utf8(text);
}

/// The pieces of `s` inside a window that holds `a + b`.
proof fn lemma_split_window(s: Seq<u8>, c: int, a: Seq<u8>, b: Seq<u8>)
    requires
        0 <= c,
        c + a.len() + b.len() <= s.len(),
        s.subrange(c, c + a.len() + b.len()) == a + b,
    ensures
        s.subrange(c, c + a.len()) == a,
        s.subrange(c + a.len(), c + a.len() + b.len()) == b,
{
    assert(s.subrange(c, c + a.len()) =~= (a + b).subrange(0, a.len() as int));
    assert(s.subrange(c + a.len(), c + a.len() + b.len()) =~= (a + b).subrange(
        a.len() as int,
        (a.len() + b.len()) as int,
    ));
}

proof fn lemma_kind_tag_roundtrip(e: EntryModel)
    ensures
        kind_of_tag(kind_tag(e.kind)) == Some(e.kind),
{
}

/// An entry written at `c` reads back as itself, with the cursor after it.
proof fn lemma_parse_written_entry(s: Seq<u8>, c: int, e: EntryModel, style: PathStyle)
    requires
        0 <= c,
        c + entry_bytes(e).len() <= s.len() <= usize::MAX,
        s.subrange(c, c + entry_bytes(e).len()) == entry_bytes(e),
        relative_path(encode_utf8(e.path), style),
        encode_utf8(e.path).len() <= u32::MAX,
        link_target_ok(e, style),
    ensures
        parsed_entry(s, c, style) == Ok::<(EntryModel, int), ErrorModel>((e, c + entry_bytes(e).len())),
{
    lemma_pow256_values();
    let path = encode_utf8(e.path);
    let tag = seq![kind_tag(e.kind)];
    let mode = be_bytes(e.mode as nat, 4);
    let path_len = be_bytes(path.len(), 4);
    let data_len = be_bytes(e.data.len(), 8);
    lemma_be_roundtrip(e.mode as nat, 4);
    lemma_be_roundtrip(path.len(), 4);
    lemma_be_roundtrip(e.data.len(), 8);
    let c1 = c + 1;
    let c2 = c1 + 4;
    let c3 = c2 + 4;
    let c4 = c3 + 8;
    let c5 = c4 + path.len();
    let c6 = c5 + e.data.len();
    assert(entry_bytes(e) == tag + mode + path_len + data_len + path + e.data);
    lemma_split_window(s, c, tag + mode + path_len + data_len + path, e.data);
    lemma_split_window(s, c, tag + mode + path_len + data_len, path);
    lemma_split_window(s, c, tag + mode + path_len, data_len);
    lemma_split_window(s, c, tag + mode, path_len);
    lemma_split_window(s, c, tag, mode);
    lemma_taken_piece(s, c, tag);
    lemma_taken_piece(s, c1, mode);
    lemma_taken_piece(s, c2, path_len);
    lemma_taken_piece(s, c3, data_len);
    lemma_taken_piece(s, c4, path);
    lemma_taken_piece(s, c5, e.data);
    assert(read_be_at(s, c1, 4) == Ok::<(nat, int), ErrorModel>((e.mode as nat, c2)));
    assert(read_be_at(s, c2, 4) == Ok::<(nat, int), ErrorModel>((path.len(), c3)));
    assert(read_be_at(s, c3, 8) == Ok::<(nat, int), ErrorModel>((e.data.len(), c4)));
    lemma_kind_tag_roundtrip(e);
    lemma_relative_text_of(e.path, "bundle path is not UTF-8"@, style);
    assert(c6 == c + entry_bytes(e).len());
}

/// Entries written one after the other from `c` read back as themselves.
proof fn lemma_parse_written_entries(
    s: Seq<u8>,
    c: int,
    entries: Seq<EntryModel>,
    style: PathStyle,
)
    requires
        0 <= c,
        c + entries_bytes(entries).len() <= s.len() <= usize::MAX,
        s.subrange(c, c + entries_bytes(entries).len()) == entries_bytes(entries),
        paths_fit(entries),
        forall|i: int| 0 <= i < entries.len() ==> relative_path(
            encode_utf8(#[trigger] entries[i].path),
            style,
        ),
        forall|i: int| 0 <= i < entries.len() ==> link_target_ok(#[trigger] entries[i], style),
    ensures
        parsed_entries(s, c, entries.len(), style) == Ok::<(Seq<EntryModel>, int), ErrorModel>(
            (entries, c + entries_bytes(entries).len()),
        ),
    decreases entries.len(),
{
    if entries.len() == 0 {
        assert(entries =~= Seq::<EntryModel>::empty());
    } else {
        let init = entries.drop_last();
        let last = entries.last();
        lemma_split_window(s, c, entries_bytes(init), entry_bytes(last));
        assert forall|i: int| 0 <= i < init.len() implies relative_path(
            encode_utf8(#[trigger] init[i].path),
            style,
        ) && encode_utf8(init[i].path).len() <= u32::MAX && link_target_ok(init[i], style) by {
            assert(init[i] == entries[i]);
        }
        lemma_parse_written_entries(s, c, init, style);
        assert(entries[entries.len() - 1] == last);
        lemma_parse_written_entry(s, c + entries_bytes(init).len(), last, style);
        assert(init.push(last) =~= entries);
    }
}

/// Reading a packed bundle gives back the bundle that was packed.
pub proof fn lemma_unpack_pack(b: BundleModel, style: PathStyle)
    requires
        packable(b, style),
    ensures
        parsed_bundle(bundle_bytes(b), style) == Ok::<BundleModel, ErrorModel>(b),
{
    lemma_pow256_values();
    let s = bundle_bytes(b);
    let entrypoint = encode_utf8(b.entrypoint);
    let magic = MAGIC@;
    let version = be_bytes(VERSION as nat, 2);
    let count = be_bytes(b.entries.len(), 4);
    let len = be_bytes(entrypoint.len(), 2);
    let rest = entries_bytes(b.entries);
    lemma_be_roundtrip(VERSION as nat, 2);
    lemma_be_roundtrip(b.entries.len(), 4);
    lemma_be_roundtrip(entrypoint.len(), 2);
    assert(magic.len() == 8);
    assert(s.subrange(0, s.len() as int) =~= s);
    lemma_split_window(s, 0, magic + version + count + len + entrypoint, rest);
    lemma_split_window(s, 0, magic + version + count + len, entrypoint);
    lemma_split_window(s, 0, magic + version + count, len);
    lemma_split_window(s, 0, magic + version, count);
    lemma_split_window(s, 0, magic, version);
    lemma_taken_piece(s, 0, magic);
    lemma_taken_piece(s, 8, version);
    lemma_taken_piece(s, 10, count);
    lemma_taken_piece(s, 14, len);
    lemma_taken_piece(s, 16, entrypoint);
    assert(read_be_at(s, 8, 2) == Ok::<(nat, int), ErrorModel>((VERSION as nat, 10)));
    assert(read_be_at(s, 10, 4) == Ok::<(nat, int), ErrorModel>((b.entries.len(), 14)));
    assert(read_be_at(s, 14, 2) == Ok::<(nat, int), ErrorModel>((entrypoint.len(), 16)));
    lemma_relative_text_of(b.entrypoint, "bundle entrypoint is not UTF-8"@, style);
    let start: int = 16 + entrypoint.len() as int;
    assert(parsed_header(s, style) == Ok::<(Seq<char>, u32, int), ErrorModel>(
        (b.entrypoint, b.entries.len() as u32, start),
    ));
    lemma_parse_written_entries(s, start, b.entries, style);
}

/// A packed bundle opens with the bundle magic.
pub proof fn lemma_packed_is_bundle(b: BundleModel)
    ensures
        starts_with_magic(bundle_bytes(b)),
{
    let s = bundle_bytes(b);
    assert(MAGIC@.len() == 8);
    assert(s.subrange(0, 8) =~= MAGIC@);
}

/// Every payload that reads as a bundle opens with the bundle magic.
pub proof fn lemma_unpacked_is_bundle(s: Seq<u8>, style: PathStyle)
    requires
        parsed_bundle(s, style) is Ok,
    ensures
        starts_with_magic(s),
{
}

/// Text read for a relative path is written back as the bytes it was read
/// from, so it names a relative path too.
proof fn lemma_read_text_relative(bytes: Seq<u8>, not_utf8: Seq<char>, style: PathStyle)
    requires
        relative_text(bytes, not_utf8, style) is Ok,
    ensures
        relative_path(encode_utf8(relative_text(bytes, not_utf8, style)->Ok_0), style),
{
    decode_utf8_encode_utf8(bytes);
}

/// Every entry that reads successfully names a relative path free of
/// parent components, and a symbolic link among them targets one.
pub proof fn lemma_parsed_entry_relative(s: Seq<u8>, c: int, style: PathStyle)
    requires
        parsed_entry(s, c, style) is Ok,
    ensures
        relative_path(encode_utf8(parsed_entry(s, c, style)->Ok_0.0.path), style),
        link_target_ok(parsed_entry(s, c, style)->Ok_0.0, style),
{
    broadcast use decode_utf8_encode_utf8;

}

/// Every run of entries that reads successfully names relative paths free
/// of parent components, and its symbolic links target such paths.
pub proof fn lemma_parsed_entries_relative(s: Seq<u8>, c: int, n: nat, style: PathStyle)
    requires
        parsed_entries(s, c, n, style) is Ok,
    ensures
        forall|i: int|
            0 <= i < parsed_entries(s, c, n, style)->Ok_0.0.len() ==> relative_path(
                encode_utf8(parsed_entries(s, c, n, style)->Ok_0.0[i].path),
                style,
            ) && link_target_ok(#[trigger] parsed_entries(s, c, n, style)->Ok_0.0[i], style),
    decreases n,
{
    if n > 0 {
        let m = (n - 1) as nat;
        lemma_parsed_entries_relative(s, c, m, style);
        let (init, c2) = parsed_entries(s, c, m, style)->Ok_0;
        lemma_parsed_entry_relative(s, c2, style);
        let all = parsed_entries(s, c, n, style)->Ok_0.0;
        assert(all == init.push(parsed_entry(s, c2, style)->Ok_0.0));
        assert forall|i: int| 0 <= i < all.len() implies relative_path(encode_utf8(all[i].path), style)
            && link_target_ok(#[trigger] all[i], style) by {
            if i < init.len() {
                assert(all[i] == init[i]);
            }
        }
    }
}

/// Every bundle that reads successfully has an entrypoint, entry paths and
/// symbolic link targets that are relative and free of parent components
/// in `style` (link targets UTF-8 as well): read in the style of the
/// platform that writes it, unpacking it cannot name anything outside the
/// destination.
pub proof fn lemma_unpacked_paths_relative(s: Seq<u8>, style: PathStyle)
    requires
        parsed_bundle(s, style) is Ok,
    ensures
        relative_path(encode_utf8(parsed_bundle(s, style)->Ok_0.entrypoint), style),
        forall|i: int|
            0 <= i < parsed_bundle(s, style)->Ok_0.entries.len() ==> relative_path(
                encode_utf8(#[trigger] parsed_bundle(s, style)->Ok_0.entries[i].path),
                style,
            ),
        forall|i: int|
            0 <= i < parsed_bundle(s, style)->Ok_0.entries.len() ==> {
                let e = #[trigger] parsed_bundle(s, style)->Ok_0.entries[i];
                e.kind is Symlink ==> valid_utf8(e.data) && relative_path(e.data, style)
            },
{
    broadcast use decode_utf8_encode_utf8;

    let (_, count, c) = parsed_header(s, style)->Ok_0;
    lemma_parsed_entries_relative(s, c, count as nat, style);
    let entries = parsed_bundle(s, style)->Ok_0.entries;
    assert(entries == parsed_entries(s, c, count as nat, style)->Ok_0.0);
    assert forall|i: int| 0 <= i < entries.len() implies relative_path(
        encode_utf8(#[trigger] entries[i].path),
        style,
    ) && link_target_ok(entries[i], style) by {
        assert(link_target_ok(parsed_entries(s, c, count as nat, style)->Ok_0.0[i], style));
    }
}

/// The tag byte of a kind, as a number: 1 for a file, 2 for a directory, 3
/// for a symbolic link.
pub open spec fn tag_number(kind: BundleEntryKind) -> u8 {
    match kind {
        BundleEntryKind::File => 1,
        BundleEntryKind::Directory => 2,
        BundleEntryKind::Symlink => 3,
    }
}

/// A file is tagged 1, a directory 2 and a symbolic link 3; reading tag 1,
/// 2 or 3 gives back that kind, and every other tag names no kind.
pub proof fn lemma_entry_tags(tag: u8)
    ensures
        kind_tag(BundleEntryKind::File) == 1,
        kind_tag(BundleEntryKind::Directory) == 2,
        kind_tag(BundleEntryKind::Symlink) == 3,
        kind_of_tag(1) == Some(BundleEntryKind::File),
        kind_of_tag(2) == Some(BundleEntryKind::Directory),
        kind_of_tag(3) == Some(BundleEntryKind::Symlink),
        (tag < 1 || tag > 3) ==> kind_of_tag(tag) is None,
{
}

/// The bundle magic is the ASCII text `VSLBND01`.
pub proof fn lemma_bundle_magic_bytes()
    ensures
        MAGIC@ == seq![86u8, 83u8, 76u8, 66u8, 78u8, 68u8, 48u8, 49u8],
{
    assert(MAGIC@ =~= seq![86u8, 83u8, 76u8, 66u8, 78u8, 68u8, 48u8, 49u8]);
}

/// The bytes of an entry, at fixed positions: its tag (1 file, 2
/// directory, 3 symbolic link); its mode in bytes 1 to 4, the UTF-8 length
/// of its path in bytes 5 to 8 and the length of its data in bytes 9 to 16,
/// each most significant byte first; then its path as UTF-8; then its data.
pub proof fn lemma_entry_layout(e: EntryModel)
    ensures
        entry_bytes(e).len() == 17 + encode_utf8(e.path).len() as int + e.data.len(),
        entry_bytes(e)[0] == tag_number(e.kind),
        forall|k: int|
            0 <= k < 4 ==> #[trigger] entry_bytes(e)[1 + k] == (e.mode as nat / pow256(
                (3 - k) as nat,
            )) % 256,
        forall|k: int|
            0 <= k < 4 ==> #[trigger] entry_bytes(e)[5 + k] == (encode_utf8(e.path).len() / pow256(
                (3 - k) as nat,
            )) % 256,
        forall|k: int|
            0 <= k < 8 ==> #[trigger] entry_bytes(e)[9 + k] == (e.data.len() / pow256(
                (7 - k) as nat,
            )) % 256,
        entry_bytes(e).subrange(17, 17 + encode_utf8(e.path).len() as int) == encode_utf8(e.path),
        entry_bytes(e).subrange(
            17 + encode_utf8(e.path).len() as int,
            entry_bytes(e).len() as int,
        ) == e.data,
{
    let path = encode_utf8(e.path);
    let x = entry_bytes(e);
    lemma_be_bytes_len(e.mode as nat, 4);
    lemma_be_bytes_len(path.len(), 4);
    lemma_be_bytes_len(e.data.len(), 8);
    assert forall|k: int| 0 <= k < 4 implies #[trigger] x[1 + k] == (e.mode as nat / pow256(
        (3 - k) as nat,
    )) % 256 by {
        lemma_be_bytes_index(e.mode as nat, 4, k);
    }
    assert forall|k: int| 0 <= k < 4 implies #[trigger] x[5 + k] == (path.len() / pow256(
        (3 - k) as nat,
    )) % 256 by {
        lemma_be_bytes_index(path.len(), 4, k);
    }
    assert forall|k: int| 0 <= k < 8 implies #[trigger] x[9 + k] == (e.data.len() / pow256(
        (7 - k) as nat,
    )) % 256 by {
        lemma_be_bytes_index(e.data.len(), 8, k);
    }
    assert(x.subrange(17, 17 + path.len() as int) =~= path);
    assert(x.subrange(17 + path.len() as int, x.len() as int) =~= e.data);
}

/// The entries of a bundle are written one after the other, in order: the
/// bytes of two runs of entries are the bytes of the first, then those of
/// the second.
pub proof fn lemma_entries_concat(a: Seq<EntryModel>, b: Seq<EntryModel>)
    ensures
        entries_bytes(a + b) == entries_bytes(a) + entries_bytes(b),
    decreases b.len(),
{
    if b.len() == 0 {
        assert(a + b =~= a);
        assert(entries_bytes(a) + entries_bytes(b) =~= entries_bytes(a));
    } else {
        lemma_entries_concat(a, b.drop_last());
        assert((a + b).drop_last() =~= a + b.drop_last());
        assert((a + b).last() == b.last());
        assert(entries_bytes(a + b) =~= entries_bytes(a) + entries_bytes(b));
    }
}

/// A single entry is written as its own bytes.
pub proof fn lemma_entries_single(e: EntryModel)
    ensures
        entries_bytes(seq![e]) == entry_bytes(e),
{
    let one = seq![e];
    assert(one.drop_last() =~= Seq::<EntryModel>::empty());
    assert(one.last() == e);
    assert(entries_bytes(one.drop_last()) == Seq::<u8>::empty());
    assert(entries_bytes(one) == entries_bytes(one.drop_last()) + entry_bytes(one.last()));
    assert(Seq::<u8>::empty() + entry_bytes(e) =~= entry_bytes(e));
}

/// The bytes of a bundle, at fixed positions: the magic `VSLBND01`; version
/// 1 as the bytes 0, 1; the number of entries in bytes 10 to 13 and the
/// UTF-8 length of the entrypoint in bytes 14 and 15, most significant byte
/// first and cut to those bytes; the entrypoint as UTF-8; then the entries.
pub proof fn lemma_bundle_layout(b: BundleModel)
    ensures
        bundle_bytes(b).subrange(0, 8) == seq![86u8, 83u8, 76u8, 66u8, 78u8, 68u8, 48u8, 49u8],
        bundle_bytes(b)[8] == 0,
        bundle_bytes(b)[9] == 1,
        forall|k: int|
            0 <= k < 4 ==> #[trigger] bundle_bytes(b)[10 + k] == (b.entries.len() / pow256(
                (3 - k) as nat,
            )) % 256,
        forall|k: int|
            0 <= k < 2 ==> #[trigger] bundle_bytes(b)[14 + k] == (encode_utf8(b.entrypoint).len()
                / pow256((1 - k) as nat)) % 256,
        bundle_bytes(b).subrange(16, 16 + encode_utf8(b.entrypoint).len() as int) == encode_utf8(
            b.entrypoint,
        ),
        bundle_bytes(b).subrange(
            16 + encode_utf8(b.entrypoint).len() as int,
            bundle_bytes(b).len() as int,
        ) == entries_bytes(b.entries),
        b.entries.len() > 0 ==> bundle_bytes(b)[16 + encode_utf8(b.entrypoint).len() as int] == tag_number(
            b.entries[0].kind,
        ),
{
    let ep = encode_utf8(b.entrypoint);
    let x = bundle_bytes(b);
    lemma_bundle_magic_bytes();
    lemma_pow256_values();
    assert(pow256(0) == 1) by {
        reveal_with_fuel(pow256, 1);
    }
    lemma_be_bytes_len(VERSION as nat, 2);
    lemma_be_bytes_len(b.entries.len(), 4);
    lemma_be_bytes_len(ep.len(), 2);
    lemma_be_bytes_index(VERSION as nat, 2, 0);
    lemma_be_bytes_index(VERSION as nat, 2, 1);
    assert(x.subrange(0, 8) =~= MAGIC@);
    assert(x[8] == be_bytes(VERSION as nat, 2)[0]);
    assert(x[9] == be_bytes(VERSION as nat, 2)[1]);
    assert forall|k: int| 0 <= k < 4 implies #[trigger] x[10 + k] == (b.entries.len() / pow256(
        (3 - k) as nat,
    )) % 256 by {
        lemma_be_bytes_index(b.entries.len(), 4, k);
        assert(x[10 + k] == be_bytes(b.entries.len(), 4)[k]);
    }
    assert forall|k: int| 0 <= k < 2 implies #[trigger] x[14 + k] == (ep.len() / pow256(
        (1 - k) as nat,
    )) % 256 by {
        lemma_be_bytes_index(ep.len(), 2, k);
        assert(x[14 + k] == be_bytes(ep.len(), 2)[k]);
    }
    assert(x.subrange(16, 16 + ep.len() as int) =~= ep);
    let rest = entries_bytes(b.entries);
    assert(x.subrange(16 + ep.len() as int, x.len() as int) =~= rest);
    if b.entries.len() > 0 {
        let first = b.entries[0];
        assert(b.entries =~= seq![first] + b.entries.skip(1));
        lemma_entries_concat(seq![first], b.entries.skip(1));
        lemma_entries_single(first);
        lemma_entry_layout(first);
        assert(rest[0] == entry_bytes(first)[0]);
        assert(x[16 + ep.len() as int] == rest[0]);
    }
}

/// Packing succeeds exactly when every entry path has at most `u32::MAX`
/// bytes of UTF-8, and then gives the bytes of the bundle; otherwise it
/// reports a path too long.
pub proof fn lemma_pack_succeeds(b: BundleModel)
    ensures
        packed(b) is Ok <==> forall|i: int|
            0 <= i < b.entries.len() ==> encode_utf8(#[trigger] b.entries[i].path).len() <= 0xFFFF_FFFF,
        packed(b) is Ok ==> packed(b)->Ok_0 == bundle_bytes(b),
        packed(b) is Err ==> packed(b)->Err_0 == ErrorModel::MalformedBundle(
            "bundle path is too long"@,
        ),
{
}

/// The tag read for a kind is written back as the same byte.
proof fn lemma_tag_of_kind_of_tag(tag: u8)
    requires
        kind_of_tag(tag) is Some,
    ensures
        kind_tag(kind_of_tag(tag)->Some_0) == tag,
{
}

/// A number read from `n` bytes is written back in `n` bytes as those bytes.
proof fn lemma_read_back(bytes: Seq<u8>, v: nat, n: nat)
    requires
        bytes.len() == n,
        v == be_value(bytes),
    ensures
        be_bytes(v, n) == bytes,
{
    lemma_be_bytes_of_value(bytes);
}

/// An entry that reads successfully is exactly the bytes that packing
/// writes for what was read: nothing in an accepted entry is ignored.
pub proof fn lemma_parsed_entry_exact(s: Seq<u8>, c: int, style: PathStyle)
    requires
        0 <= c,
        parsed_entry(s, c, style) is Ok,
    ensures
        c <= parsed_entry(s, c, style)->Ok_0.1 <= s.len(),
        s.subrange(c, parsed_entry(s, c, style)->Ok_0.1) == entry_bytes(
            parsed_entry(s, c, style)->Ok_0.0,
        ),
{
    lemma_pow256_values();
    let (e, end) = parsed_entry(s, c, style)->Ok_0;
    assert(taken(s, c, 1) is Ok);
    let tag = s.subrange(c, c + 1);
    lemma_tag_of_kind_of_tag(tag[0]);
    let m = s.subrange(c + 1, c + 5);
    assert(read_be_at(s, c + 1, 4) is Ok);
    let pl = s.subrange(c + 5, c + 9);
    assert(read_be_at(s, c + 5, 4) is Ok);
    let dl = s.subrange(c + 9, c + 17);
    assert(read_be_at(s, c + 9, 8) is Ok);
    let plen = be_value(pl);
    let dlen = be_value(dl);
    let path = s.subrange(c + 17, c + 17 + plen);
    assert(taken(s, c + 17, plen as int) is Ok);
    assert(relative_text(path, "bundle path is not UTF-8"@, style) is Ok);
    let data = s.subrange(c + 17 + plen, c + 17 + plen + dlen);
    assert(taken(s, c + 17 + plen, dlen as int) is Ok);
    assert(e.kind == kind_of_tag(tag[0])->Some_0);
    assert(e.data == data);
    assert(end == c + 17 + plen + dlen);
    decode_utf8_encode_utf8(path);
    assert(encode_utf8(e.path) == path);
    lemma_be_value_bound(m);
    lemma_read_back(m, e.mode as nat, 4);
    lemma_read_back(pl, path.len(), 4);
    lemma_read_back(dl, data.len(), 8);
    assert(s.subrange(c, end) =~= seq![kind_tag(e.kind)] + be_bytes(e.mode as nat, 4) + be_bytes(
        path.len(),
        4,
    ) + be_bytes(data.len(), 8) + path + data);
}

/// A run of entries that reads successfully is exactly the bytes that
/// packing writes for the entries read, and there are as many as asked for.
pub proof fn lemma_parsed_entries_exact(s: Seq<u8>, c: int, n: nat, style: PathStyle)
    requires
        0 <= c <= s.len(),
        parsed_entries(s, c, n, style) is Ok,
    ensures
        c <= parsed_entries(s, c, n, style)->Ok_0.1 <= s.len(),
        parsed_entries(s, c, n, style)->Ok_0.0.len() == n,
        s.subrange(c, parsed_entries(s, c, n, style)->Ok_0.1) == entries_bytes(
            parsed_entries(s, c, n, style)->Ok_0.0,
        ),
    decreases n,
{
    if n == 0 {
        assert(s.subrange(c, c) =~= Seq::<u8>::empty());
    } else {
        let m = (n - 1) as nat;
        lemma_parsed_entries_exact(s, c, m, style);
        let (init, c2) = parsed_entries(s, c, m, style)->Ok_0;
        lemma_parsed_entry_exact(s, c2, style);
        let (e, end) = parsed_entry(s, c2, style)->Ok_0;
        let all = parsed_entries(s, c, n, style)->Ok_0.0;
        assert(all == init.push(e));
        assert(all.drop_last() =~= init);
        assert(s.subrange(c, end) =~= s.subrange(c, c2) + s.subrange(c2, end));
    }
}

/// A payload that reads as a bundle is exactly the bytes that packing
/// writes for the bundle read: reading accepts only what packing writes,
/// and ignores none of it.
pub proof fn lemma_unpacked_exact(s: Seq<u8>, style: PathStyle)
    requires
        parsed_bundle(s, style) is Ok,
    ensures
        bundle_bytes(parsed_bundle(s, style)->Ok_0) == s,
{
    lemma_pow256_values();
    let b = parsed_bundle(s, style)->Ok_0;
    assert(taken(s, 0, 8) is Ok);
    let magic = s.subrange(0, 8);
    let vb = s.subrange(8, 10);
    assert(read_be_at(s, 8, 2) is Ok);
    let cb = s.subrange(10, 14);
    assert(read_be_at(s, 10, 4) is Ok);
    let lb = s.subrange(14, 16);
    assert(read_be_at(s, 14, 2) is Ok);
    let eplen = be_value(lb);
    let epb = s.subrange(16, 16 + eplen as int);
    assert(taken(s, 16, eplen as int) is Ok);
    assert(relative_text(epb, "bundle entrypoint is not UTF-8"@, style) is Ok);
    let (_, count, start) = parsed_header(s, style)->Ok_0;
    assert(start == 16 + eplen);
    lemma_be_value_bound(cb);
    assert(count as nat == be_value(cb));
    lemma_parsed_entries_exact(s, start, count as nat, style);
    let (es, end) = parsed_entries(s, start, count as nat, style)->Ok_0;
    assert(b.entries == es);
    assert(end == s.len());
    decode_utf8_encode_utf8(epb);
    assert(encode_utf8(b.entrypoint) == epb);
    lemma_read_back(vb, VERSION as nat, 2);
    lemma_read_back(cb, es.len(), 4);
    lemma_read_back(lb, epb.len(), 2);
    assert(s =~= magic + vb + cb + lb + epb + s.subrange(start, end));
}

/// A payload is recognised as a bundle exactly when it has at least eight
/// bytes and they are `VSLBND01`.
pub proof fn lemma_starts_with_magic_bytes(s: Seq<u8>)
    ensures
        starts_with_magic(s) <==> (s.len() >= 8 && s.subrange(0, 8) == seq![
            86u8,
            83u8,
            76u8,
            66u8,
            78u8,
            68u8,
            48u8,
            49u8,
        ]),
{
    lemma_bundle_magic_bytes();
}

/// Taking `n` bytes at `cursor` gives bytes `cursor` to `cursor + n` and the
/// cursor after them when they lie inside `s`; past the end of `s` it
/// reports a truncated bundle, and past the addressable range an offset
/// overflow.
pub proof fn lemma_taken_bytes(s: Seq<u8>, cursor: int, n: int)
    requires
        0 <= cursor,
        0 <= n,
    ensures
        cursor + n <= s.len() && s.len() <= usize::MAX ==> taken(s, cursor, n) == Ok::<
            (Seq<u8>, int),
            ErrorModel,
        >((s.subrange(cursor, cursor + n), cursor + n)),
        s.len() < cursor + n <= usize::MAX ==> taken(s, cursor, n) == Err::<(Seq<u8>, int), ErrorModel>(
            ErrorModel::MalformedBundle("bundle is truncated"@),
        ),
        cursor + n > usize::MAX ==> taken(s, cursor, n) == Err::<(Seq<u8>, int), ErrorModel>(
            ErrorModel::MalformedBundle("bundle offset overflow"@),
        ),
{
}

} // verus!
