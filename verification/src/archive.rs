//! The archive container: packs a set of typed resource files into
//! one DEFLATE-compressed blob, and reverses the operation.
//!
//! The uncompressed layout is a table of contents — a 32-bit entry
//! count, then per entry one length byte, the entry's path and one
//! resource-type byte — followed by, for every entry in the same
//! order, a 32-bit length-prefixed payload blob.  Table order and
//! payload order are coupled positionally.
//!
//! Entries are laid out with higher-numbered resource types first
//! (textures before geometry), because the consuming engine assumes
//! referenced textures are already loaded when it later reads
//! dependent geometry.  Ties keep encounter order.

use vstd::prelude::*;
use vstd::string::{StrSliceExecFns, StringExecFns};
use vstd::utf8::encode_utf8;

use crate::archive_laws::{lemma_mapped_types, lemma_sort_entries_len};
use crate::geom::count_of;
use crate::reader::{le32_at, loop_count, read_string, text_at, ByteReader};
use crate::{ArchiveError, DecodeError, PackError};

verus! {

// ---------------------------------------------------------------
// Resource-type mapping
// ---------------------------------------------------------------

/// ASCII upper-case letters folded to lower case; everything else
/// unchanged.
pub open spec fn ascii_lower_char(c: char) -> char {
    if 'A' <= c && c <= 'Z' {
        (c as u8 + 32) as char
    } else {
        c
    }
}

/// The suffix of `p` after the last occurrence of `c`; all of `p`
/// when `c` does not occur.
pub open spec fn after_last(p: Seq<char>, c: char) -> Seq<char>
    decreases p.len(),
{
    if p.len() == 0 {
        p
    } else if p.last() == c {
        Seq::empty()
    } else {
        after_last(p.drop_last(), c).push(p.last())
    }
}

/// Whether `c` occurs in `p`.
pub open spec fn has_char(p: Seq<char>, c: char) -> bool {
    exists|i: int| 0 <= i < p.len() && p[i] == c
}

/// The file-name component of a forward-slash path: everything after
/// the last slash.
pub open spec fn file_name_of(path: Seq<char>) -> Seq<char> {
    after_last(path, '/')
}

/// The extension of a file name: what follows the last dot, except
/// that a name without a dot, or whose only dot is the leading
/// character (a hidden file), has none.
pub open spec fn extension_of(name: Seq<char>) -> Option<Seq<char>> {
    if !has_char(name, '.') {
        None
    } else {
        let e = after_last(name, '.');
        if name.len() - e.len() - 1 == 0 {
            None
        } else {
            Some(e)
        }
    }
}

/// The resource-type code an extension maps to, compared with ASCII
/// case folded: the three mesh formats, heightmaps, and the known
/// image formats.
pub open spec fn ext_code(e: Seq<char>) -> Option<u8> {
    if e.len() == 3 {
        let c0 = ascii_lower_char(e[0]);
        let c1 = ascii_lower_char(e[1]);
        let c2 = ascii_lower_char(e[2]);
        if c0 == 'b' && c1 == 'o' && c2 == 'x' {
            Some(0u8)
        } else if c0 == 'o' && c1 == 'b' && c2 == 'j' {
            Some(1u8)
        } else if c0 == 'm' && c1 == 'a' && c2 == 'p' {
            Some(2u8)
        } else if c0 == 'h' && c1 == 'm' && c2 == 'p' {
            Some(3u8)
        } else if (c0 == 'p' && c1 == 'n' && c2 == 'g') || (c0 == 'j' && c1 == 'p' && c2 == 'g') {
            Some(10u8)
        } else {
            None
        }
    } else {
        None
    }
}

/// The resource-type code of a path: three reserved exact file names
/// first, then the extension table; no mapping means the file is
/// skipped at pack time.
pub open spec fn rsrc_type_of(path: Seq<char>) -> Option<u8> {
    let name = file_name_of(path);
    if name == "path.dat"@ {
        Some(4u8)
    } else if name == "animate.dat"@ {
        Some(5u8)
    } else if name == "carproperty.dat"@ {
        Some(6u8)
    } else {
        match extension_of(name) {
            None => None,
            Some(e) => ext_code(e),
        }
    }
}

/// `after_last` is the suffix after position `k`, when `k` is the
/// last occurrence of `c`.
proof fn lemma_after_last_at(p: Seq<char>, c: char, k: int)
    requires
        0 <= k < p.len(),
        p[k] == c,
        forall|j: int| k < j < p.len() ==> p[j] != c,
    ensures
        after_last(p, c) == p.subrange(k + 1, p.len() as int),
    decreases p.len(),
{
    if k == p.len() - 1 {
        assert(p.subrange(k + 1, p.len() as int) =~= Seq::empty());
    } else {
        assert(p.last() != c);
        lemma_after_last_at(p.drop_last(), c, k);
        assert(p.drop_last().subrange(k + 1, p.len() - 1).push(p.last()) =~= p.subrange(
            k + 1,
            p.len() as int,
        ));
    }
}

/// `after_last` is all of `p` when `c` does not occur.
proof fn lemma_after_last_absent(p: Seq<char>, c: char)
    requires
        forall|j: int| 0 <= j < p.len() ==> p[j] != c,
    ensures
        after_last(p, c) == p,
    decreases p.len(),
{
    if p.len() > 0 {
        lemma_after_last_absent(p.drop_last(), c);
        assert(p.drop_last().push(p.last()) =~= p);
    }
}

/// Finds the position right after the last occurrence of `c`, or 0
/// when `c` does not occur.
fn scan_after_last(s: &str, c: char) -> (r: usize)
    ensures
        r <= s@.len(),
        s@.subrange(r as int, s@.len() as int) == after_last(s@, c),
        r > 0 ==> s@[r - 1] == c,
        r == 0 ==> !has_char(s@, c),
{
    let n = s.unicode_len();
    let mut i: usize = n;
    while i > 0 && s.get_char(i - 1) != c
        invariant
            i <= n,
            n == s@.len(),
            forall|j: int| i <= j < s@.len() ==> s@[j] != c,
        decreases i,
    {
        i = i - 1;
    }
    proof {
        if i > 0 {
            lemma_after_last_at(s@, c, i - 1);
        } else {
            lemma_after_last_absent(s@, c);
            assert(s@.subrange(0, s@.len() as int) =~= s@);
        }
    }
    i
}

/// Folds one ASCII upper-case letter to lower case.
fn lower_char(c: char) -> (r: char)
    ensures
        r == ascii_lower_char(c),
{
    if 'A' <= c && c <= 'Z' {
        (c as u8 + 32) as char
    } else {
        c
    }
}

/// Maps a forward-slash relative path to its resource-type code, or
/// `None` for a file that the archive format does not carry.
pub fn rsrc_type_mapper(path: &str) -> (r: Option<u8>)
    ensures
        r == rsrc_type_of(path@),
{
    let slash = scan_after_last(path, '/');
    let name_len = path.unicode_len();
    let name = path.substring_char(slash, name_len);
    proof {
        assert(name@ == file_name_of(path@));
    }
    let name_owned = name.to_owned();
    if name_owned == String::from_str("path.dat") {
        return Some(4);
    }
    if name_owned == String::from_str("animate.dat") {
        return Some(5);
    }
    if name_owned == String::from_str("carproperty.dat") {
        return Some(6);
    }
    let dot = scan_after_last(name, '.');
    if dot <= 1 {
        // no dot at all, or only a leading dot: no extension
        return None;
    }
    let ext = name.substring_char(dot, name.unicode_len());
    proof {
        assert(extension_of(name@) == Some::<Seq<char>>(ext@));
    }
    if ext.unicode_len() != 3 {
        return None;
    }
    let c0 = lower_char(ext.get_char(0));
    let c1 = lower_char(ext.get_char(1));
    let c2 = lower_char(ext.get_char(2));
    if c0 == 'b' && c1 == 'o' && c2 == 'x' {
        Some(0)
    } else if c0 == 'o' && c1 == 'b' && c2 == 'j' {
        Some(1)
    } else if c0 == 'm' && c1 == 'a' && c2 == 'p' {
        Some(2)
    } else if c0 == 'h' && c1 == 'm' && c2 == 'p' {
        Some(3)
    } else if (c0 == 'p' && c1 == 'n' && c2 == 'g') || (c0 == 'j' && c1 == 'p' && c2 == 'g') {
        Some(10)
    } else {
        None
    }
}

// ---------------------------------------------------------------
// Entries and the uncompressed layout
// ---------------------------------------------------------------

/// One file handed to [`pack`]: a forward-slash relative path and the
/// file's contents.
pub struct InputFile {
    pub path: String,
    pub payload: Vec<u8>,
}

/// Mathematical value of an [`InputFile`].
pub struct InputFileView {
    pub path: Seq<char>,
    pub payload: Seq<u8>,
}

impl View for InputFile {
    type V = InputFileView;

    open spec fn view(&self) -> InputFileView {
        InputFileView { path: self.path@, payload: self.payload@ }
    }
}

/// One archive entry: a relative path, its resource-type code, and
/// the payload bytes.
pub struct ArchiveEntry {
    pub path: String,
    pub rtype: u8,
    pub payload: Vec<u8>,
}

/// Mathematical value of an [`ArchiveEntry`].
pub struct EntryView {
    pub path: Seq<char>,
    pub rtype: u8,
    pub payload: Seq<u8>,
}

impl View for ArchiveEntry {
    type V = EntryView;

    open spec fn view(&self) -> EntryView {
        EntryView { path: self.path@, rtype: self.rtype, payload: self.payload@ }
    }
}

/// The files that map to a resource type, as entries, in input order;
/// unmapped files are skipped.
pub open spec fn mapped_entries(files: Seq<InputFileView>) -> Seq<EntryView>
    decreases files.len(),
{
    if files.len() == 0 {
        seq![]
    } else {
        let rest = mapped_entries(files.drop_first());
        match rsrc_type_of(files[0].path) {
            Some(t) => seq![
                EntryView { path: files[0].path, rtype: t, payload: files[0].payload },
            ] + rest,
            None => rest,
        }
    }
}

/// The entries of one resource type, keeping their input order.
pub open spec fn entries_of_type(es: Seq<EntryView>, t: u8) -> Seq<EntryView>
    decreases es.len(),
{
    if es.len() == 0 {
        seq![]
    } else if es[0].rtype == t {
        seq![es[0]] + entries_of_type(es.drop_first(), t)
    } else {
        entries_of_type(es.drop_first(), t)
    }
}

/// Archive layout order: resource-type codes descending (textures
/// first), ties keeping input order.
pub open spec fn sort_entries(es: Seq<EntryView>) -> Seq<EntryView> {
    entries_of_type(es, 10) + entries_of_type(es, 6) + entries_of_type(es, 5) + entries_of_type(
        es,
        4,
    ) + entries_of_type(es, 3) + entries_of_type(es, 2) + entries_of_type(es, 1) + entries_of_type(
        es,
        0,
    )
}

/// The four bytes of a 32-bit value in little-endian order.
pub open spec fn le32_bytes(x: u32) -> Seq<u8> {
    seq![
        (x % 0x100) as u8,
        ((x / 0x100) % 0x100) as u8,
        ((x / 0x1_0000) % 0x100) as u8,
        ((x / 0x100_0000) % 0x100) as u8,
    ]
}

/// One table-of-contents record: a length byte, the path's UTF-8
/// bytes, and the resource-type byte.
pub open spec fn toc_entry_bytes(e: EntryView) -> Seq<u8> {
    seq![encode_utf8(e.path).len() as u8] + encode_utf8(e.path) + seq![e.rtype]
}

/// The table-of-contents records, concatenated in entry order.
pub open spec fn toc_entries_bytes(es: Seq<EntryView>) -> Seq<u8>
    decreases es.len(),
{
    if es.len() == 0 {
        seq![]
    } else {
        toc_entry_bytes(es[0]) + toc_entries_bytes(es.drop_first())
    }
}

/// One payload blob: a 32-bit length prefix and the payload bytes.
pub open spec fn payload_entry_bytes(e: EntryView) -> Seq<u8> {
    le32_bytes(e.payload.len() as u32) + e.payload
}

/// The payload blobs, concatenated in entry order.
pub open spec fn payloads_bytes(es: Seq<EntryView>) -> Seq<u8>
    decreases es.len(),
{
    if es.len() == 0 {
        seq![]
    } else {
        payload_entry_bytes(es[0]) + payloads_bytes(es.drop_first())
    }
}

/// The whole uncompressed archive: entry count, table of contents,
/// then the payload blobs in the same order.
pub open spec fn archive_plain(es: Seq<EntryView>) -> Seq<u8> {
    le32_bytes(es.len() as u32) + toc_entries_bytes(es) + payloads_bytes(es)
}

/// Every path fits the single length byte of its record.
pub open spec fn names_fit(es: Seq<EntryView>) -> bool {
    forall|i: int| 0 <= i < es.len() ==> encode_utf8(#[trigger] es[i].path).len() <= 255
}

/// Every payload length fits its 32-bit length prefix.
pub open spec fn payloads_fit(es: Seq<EntryView>) -> bool {
    forall|i: int| 0 <= i < es.len() ==> (#[trigger] es[i].payload).len() <= 0x7FFF_FFFF
}

/// What [`pack`] produces: the mapped entries in layout order,
/// serialized and compressed, or the failure and when it comes.
pub open spec fn spec_pack(files: Seq<InputFileView>) -> Result<Seq<u8>, PackError> {
    let m = mapped_entries(files);
    let es = sort_entries(m);
    if m.len() == 0 {
        Err(PackError::NoFiles)
    } else if m.len() > 0x7FFF_FFFF {
        Err(PackError::TooManyEntries)
    } else if !names_fit(es) {
        Err(PackError::NameTooLong)
    } else if !payloads_fit(es) {
        Err(PackError::PayloadTooLarge)
    } else {
        Ok(deflate_of(archive_plain(es)))
    }
}

// ---------------------------------------------------------------
// Compression
// ---------------------------------------------------------------

/// What DEFLATE compression at the fixed level produces for given
/// input bytes.
pub uninterp spec fn deflate_of(b: Seq<u8>) -> Seq<u8>;

/// What DEFLATE decompression recovers from a stream: the original
/// bytes for a valid stream, nothing for a corrupt one.
pub uninterp spec fn inflate_of(b: Seq<u8>) -> Option<Seq<u8>>;

/// Relies on flate2's `DeflateEncoder` over an in-memory sink at the
/// fixed best-compression level: the compressed stream is a function
/// of the input bytes alone, and DEFLATE decompression recovers
/// exactly the input from it.
#[verifier::external_body]
fn deflate_bytes(data: &Vec<u8>) -> (r: Vec<u8>)
    ensures
        r@ == deflate_of(data@),
        inflate_of(r@) == Some(data@),
{
    let mut enc = flate2::write::DeflateEncoder::new(Vec::new(), flate2::Compression::best());
    std::io::Write::write_all(&mut enc, data.as_slice()).unwrap();
    enc.finish().unwrap()
}

/// Relies on flate2's `DeflateDecoder`: decompression is a function
/// of the input bytes alone, and fails exactly on data that is not a
/// valid DEFLATE stream.
#[verifier::external_body]
fn inflate_bytes(data: &[u8]) -> (r: Option<Vec<u8>>)
    ensures
        match inflate_of(data@) {
            Some(plain) => r is Some && r.unwrap()@ == plain,
            None => r is None,
        },
{
    let mut dec = flate2::read::DeflateDecoder::new(data);
    let mut out = Vec::new();
    match std::io::Read::read_to_end(&mut dec, &mut out) {
        Ok(_) => Some(out),
        Err(_) => None,
    }
}

// ---------------------------------------------------------------
// Packing
// ---------------------------------------------------------------

// ---------------------------------------------------------------
// Packing
// ---------------------------------------------------------------

/// Collecting the entries of one type commutes with appending an
/// entry.
proof fn lemma_entries_of_type_push(s: Seq<EntryView>, e: EntryView, t: u8)
    ensures
        entries_of_type(s.push(e), t) == entries_of_type(s, t) + (if e.rtype == t {
            seq![e]
        } else {
            Seq::<EntryView>::empty()
        }),
    decreases s.len(),
{
    let tail: Seq<EntryView> = if e.rtype == t {
        seq![e]
    } else {
        Seq::empty()
    };
    let sp = s.push(e);
    if s.len() == 0 {
        assert(sp[0] == e);
        assert(sp.drop_first() =~= Seq::<EntryView>::empty());
        if e.rtype == t {
            assert(entries_of_type(sp, t) == seq![e] + entries_of_type(sp.drop_first(), t));
            assert(seq![e] + Seq::<EntryView>::empty() =~= seq![e]);
            assert(entries_of_type(s, t) + tail =~= seq![e]);
        } else {
            assert(entries_of_type(sp, t) == entries_of_type(sp.drop_first(), t));
            assert(entries_of_type(s, t) + tail =~= Seq::<EntryView>::empty());
        }
    } else {
        lemma_entries_of_type_push(s.drop_first(), e, t);
        assert(sp.drop_first() =~= s.drop_first().push(e));
        assert(sp[0] == s[0]);
        if s[0].rtype == t {
            assert(entries_of_type(sp, t) == seq![s[0]] + entries_of_type(
                s.drop_first().push(e),
                t,
            ));
            assert(entries_of_type(s, t) == seq![s[0]] + entries_of_type(s.drop_first(), t));
            assert(seq![s[0]] + (entries_of_type(s.drop_first(), t) + tail) =~= (seq![s[0]]
                + entries_of_type(s.drop_first(), t)) + tail);
        } else {
            assert(entries_of_type(sp, t) == entries_of_type(s.drop_first().push(e), t));
        }
    }
}

/// Serializing the table of contents commutes with appending an
/// entry.
proof fn lemma_toc_entries_push(s: Seq<EntryView>, e: EntryView)
    ensures
        toc_entries_bytes(s.push(e)) == toc_entries_bytes(s) + toc_entry_bytes(e),
    decreases s.len(),
{
    let sp = s.push(e);
    if s.len() == 0 {
        assert(sp[0] == e);
        assert(sp.drop_first() =~= Seq::<EntryView>::empty());
        assert(toc_entries_bytes(sp) == toc_entry_bytes(e) + toc_entries_bytes(
            Seq::<EntryView>::empty(),
        ));
        assert(toc_entry_bytes(e) + Seq::<u8>::empty() =~= toc_entry_bytes(e));
        assert(toc_entries_bytes(s) + toc_entry_bytes(e) =~= toc_entry_bytes(e));
    } else {
        lemma_toc_entries_push(s.drop_first(), e);
        assert(sp.drop_first() =~= s.drop_first().push(e));
        assert(sp[0] == s[0]);
        assert(toc_entries_bytes(sp) == toc_entry_bytes(s[0]) + toc_entries_bytes(
            s.drop_first().push(e),
        ));
        assert(toc_entry_bytes(s[0]) + (toc_entries_bytes(s.drop_first()) + toc_entry_bytes(e))
            =~= (toc_entry_bytes(s[0]) + toc_entries_bytes(s.drop_first())) + toc_entry_bytes(e));
    }
}

/// Serializing the payload stream commutes with appending an entry.
proof fn lemma_payloads_push(s: Seq<EntryView>, e: EntryView)
    ensures
        payloads_bytes(s.push(e)) == payloads_bytes(s) + payload_entry_bytes(e),
    decreases s.len(),
{
    let sp = s.push(e);
    if s.len() == 0 {
        assert(sp[0] == e);
        assert(sp.drop_first() =~= Seq::<EntryView>::empty());
        assert(payloads_bytes(sp) == payload_entry_bytes(e) + payloads_bytes(
            Seq::<EntryView>::empty(),
        ));
        assert(payload_entry_bytes(e) + Seq::<u8>::empty() =~= payload_entry_bytes(e));
        assert(payloads_bytes(s) + payload_entry_bytes(e) =~= payload_entry_bytes(e));
    } else {
        lemma_payloads_push(s.drop_first(), e);
        assert(sp.drop_first() =~= s.drop_first().push(e));
        assert(sp[0] == s[0]);
        assert(payloads_bytes(sp) == payload_entry_bytes(s[0]) + payloads_bytes(
            s.drop_first().push(e),
        ));
        assert(payload_entry_bytes(s[0]) + (payloads_bytes(s.drop_first())
            + payload_entry_bytes(e)) =~= (payload_entry_bytes(s[0]) + payloads_bytes(
            s.drop_first(),
        )) + payload_entry_bytes(e));
    }
}


/// A resource-type code that the mapping table can produce.
pub open spec fn known_type(t: u8) -> bool {
    t == 0 || t == 1 || t == 2 || t == 3 || t == 4 || t == 5 || t == 6 || t == 10
}

/// Every entry the mapping produces carries a known type code.
pub open spec fn types_known(es: Seq<EntryView>) -> bool {
    forall|i: int| 0 <= i < es.len() ==> known_type(#[trigger] es[i].rtype)
}

/// Appends the little-endian bytes of a 32-bit value.
fn push_le32(out: &mut Vec<u8>, x: u32)
    ensures
        final(out)@ == old(out)@ + le32_bytes(x),
{
    out.push((x % 0x100) as u8);
    out.push(((x / 0x100) % 0x100) as u8);
    out.push(((x / 0x1_0000) % 0x100) as u8);
    out.push(((x / 0x100_0000) % 0x100) as u8);
    proof {
        assert(out@ =~= old(out)@ + le32_bytes(x));
    }
}

/// Appends a byte slice.
#[verifier::loop_isolation(false)]
fn push_bytes(out: &mut Vec<u8>, b: &[u8])
    ensures
        final(out)@ == old(out)@ + b@,
{
    let mut i: usize = 0;
    while i < b.len()
        invariant
            i <= b@.len(),
            out@ == old(out)@ + b@.subrange(0, i as int),
        decreases b@.len() - i,
    {
        out.push(b[i]);
        i = i + 1;
        proof {
            assert(out@ =~= old(out)@ + b@.subrange(0, i as int));
        }
    }
    proof {
        assert(b@.subrange(0, b@.len() as int) =~= b@);
    }
}

/// Maps each input file to its resource type, keeping input order and
/// skipping files without one.
#[verifier::loop_isolation(false)]
fn collect_entries(files: Vec<InputFile>) -> (r: Vec<ArchiveEntry>)
    ensures
        r@.map_values(|e: ArchiveEntry| e@) == mapped_entries(
            files@.map_values(|f: InputFile| f@),
        ),
{
    let ghost fviews = files@.map_values(|f: InputFile| f@);
    let mut files = files;
    let mut entries: Vec<ArchiveEntry> = Vec::new();
    proof {
        assert(entries@.map_values(|e: ArchiveEntry| e@) + mapped_entries(fviews) =~= mapped_entries(
            fviews,
        ));
    }
    while files.len() > 0
        invariant
            mapped_entries(fviews) == entries@.map_values(|e: ArchiveEntry| e@) + mapped_entries(
                files@.map_values(|f: InputFile| f@),
            ),
        decreases files@.len(),
    {
        let ghost pre_views = files@.map_values(|f: InputFile| f@);
        let ghost pre_entries = entries@.map_values(|e: ArchiveEntry| e@);
        let f = files.remove(0);
        proof {
            assert(f@ == pre_views[0]);
            assert(files@.map_values(|f: InputFile| f@) =~= pre_views.drop_first());
        }
        match rsrc_type_mapper(f.path.as_str()) {
            Some(t) => {
                let entry = ArchiveEntry { path: f.path, rtype: t, payload: f.payload };
                let ghost ev = entry@;
                entries.push(entry);
                proof {
                    assert(entries@.map_values(|e: ArchiveEntry| e@) =~= pre_entries.push(ev));
                    assert(pre_entries.push(ev) + mapped_entries(pre_views.drop_first())
                        =~= pre_entries + (seq![ev] + mapped_entries(pre_views.drop_first())));
                }
            },
            None => {},
        }
    }
    proof {
        assert(files@.map_values(|f: InputFile| f@) =~= Seq::<InputFileView>::empty());
        assert(entries@.map_values(|e: ArchiveEntry| e@) + Seq::<EntryView>::empty() =~= entries@
            .map_values(|e: ArchiveEntry| e@));
    }
    entries
}

/// Lays the entries out in archive order: resource-type codes
/// descending, ties keeping input order.
#[verifier::loop_isolation(false)]
#[verifier::rlimit(60)]
fn layout_entries(entries: Vec<ArchiveEntry>) -> (r: Vec<ArchiveEntry>)
    ensures
        r@.map_values(|e: ArchiveEntry| e@) == sort_entries(
            entries@.map_values(|e: ArchiveEntry| e@),
        ),
{
    let ghost m = entries@.map_values(|e: ArchiveEntry| e@);
    let mut entries = entries;
    let mut b10: Vec<ArchiveEntry> = Vec::new();
    let mut b6: Vec<ArchiveEntry> = Vec::new();
    let mut b5: Vec<ArchiveEntry> = Vec::new();
    let mut b4: Vec<ArchiveEntry> = Vec::new();
    let mut b3: Vec<ArchiveEntry> = Vec::new();
    let mut b2: Vec<ArchiveEntry> = Vec::new();
    let mut b1: Vec<ArchiveEntry> = Vec::new();
    let mut b0: Vec<ArchiveEntry> = Vec::new();
    let ghost mut done: int = 0;
    proof {
        assert(entries@.map_values(|e: ArchiveEntry| e@) =~= m.subrange(0, m.len() as int));
        assert(m.subrange(0, 0) =~= Seq::<EntryView>::empty());
    }
    while entries.len() > 0
        invariant
            0 <= done <= m.len(),
            entries@.map_values(|e: ArchiveEntry| e@) == m.subrange(done, m.len() as int),
            b10@.map_values(|e: ArchiveEntry| e@) == entries_of_type(m.subrange(0, done), 10),
            b6@.map_values(|e: ArchiveEntry| e@) == entries_of_type(m.subrange(0, done), 6),
            b5@.map_values(|e: ArchiveEntry| e@) == entries_of_type(m.subrange(0, done), 5),
            b4@.map_values(|e: ArchiveEntry| e@) == entries_of_type(m.subrange(0, done), 4),
            b3@.map_values(|e: ArchiveEntry| e@) == entries_of_type(m.subrange(0, done), 3),
            b2@.map_values(|e: ArchiveEntry| e@) == entries_of_type(m.subrange(0, done), 2),
            b1@.map_values(|e: ArchiveEntry| e@) == entries_of_type(m.subrange(0, done), 1),
            b0@.map_values(|e: ArchiveEntry| e@) == entries_of_type(m.subrange(0, done), 0),
        decreases entries@.len(),
    {
        let ghost pre_seq = entries@;
        let ghost pre_views = entries@.map_values(|e: ArchiveEntry| e@);
        let ghost processed = m.subrange(0, done);
        let e = entries.remove(0);
        proof {
            assert(e == pre_seq[0]);
            assert(pre_views[0] == pre_seq[0]@);
            assert(pre_views[0] == m[done]);
            assert(e@ == m[done]);
            assert(entries@ =~= pre_seq.drop_first());
            let msub = m.subrange(done + 1, m.len() as int);
            assert forall|j: int| 0 <= j < entries@.len() implies #[trigger] msub[j] == entries@
                .map_values(|e: ArchiveEntry| e@)[j] by {
                assert(entries@[j] == pre_seq[j + 1]);
                assert(pre_views[j + 1] == pre_seq[j + 1]@);
                assert(pre_views[j + 1] == m[done + 1 + j]);
                assert(msub[j] == m[done + 1 + j]);
            }
            assert(entries@.map_values(|e: ArchiveEntry| e@) =~= msub);
            assert(m.subrange(0, done + 1) =~= processed.push(m[done]));
            lemma_entries_of_type_push(processed, m[done], 10);
            lemma_entries_of_type_push(processed, m[done], 6);
            lemma_entries_of_type_push(processed, m[done], 5);
            lemma_entries_of_type_push(processed, m[done], 4);
            lemma_entries_of_type_push(processed, m[done], 3);
            lemma_entries_of_type_push(processed, m[done], 2);
            lemma_entries_of_type_push(processed, m[done], 1);
            lemma_entries_of_type_push(processed, m[done], 0);
            assert(entries_of_type(processed, 10) + Seq::<EntryView>::empty() =~= entries_of_type(
                processed,
                10,
            ));
            assert(entries_of_type(processed, 6) + Seq::<EntryView>::empty() =~= entries_of_type(
                processed,
                6,
            ));
            assert(entries_of_type(processed, 5) + Seq::<EntryView>::empty() =~= entries_of_type(
                processed,
                5,
            ));
            assert(entries_of_type(processed, 4) + Seq::<EntryView>::empty() =~= entries_of_type(
                processed,
                4,
            ));
            assert(entries_of_type(processed, 3) + Seq::<EntryView>::empty() =~= entries_of_type(
                processed,
                3,
            ));
            assert(entries_of_type(processed, 2) + Seq::<EntryView>::empty() =~= entries_of_type(
                processed,
                2,
            ));
            assert(entries_of_type(processed, 1) + Seq::<EntryView>::empty() =~= entries_of_type(
                processed,
                1,
            ));
            assert(entries_of_type(processed, 0) + Seq::<EntryView>::empty() =~= entries_of_type(
                processed,
                0,
            ));
            assert(entries_of_type(processed, 10) + seq![m[done]] =~= entries_of_type(
                processed,
                10,
            ).push(m[done]));
            assert(entries_of_type(processed, 6) + seq![m[done]] =~= entries_of_type(
                processed,
                6,
            ).push(m[done]));
            assert(entries_of_type(processed, 5) + seq![m[done]] =~= entries_of_type(
                processed,
                5,
            ).push(m[done]));
            assert(entries_of_type(processed, 4) + seq![m[done]] =~= entries_of_type(
                processed,
                4,
            ).push(m[done]));
            assert(entries_of_type(processed, 3) + seq![m[done]] =~= entries_of_type(
                processed,
                3,
            ).push(m[done]));
            assert(entries_of_type(processed, 2) + seq![m[done]] =~= entries_of_type(
                processed,
                2,
            ).push(m[done]));
            assert(entries_of_type(processed, 1) + seq![m[done]] =~= entries_of_type(
                processed,
                1,
            ).push(m[done]));
            assert(entries_of_type(processed, 0) + seq![m[done]] =~= entries_of_type(
                processed,
                0,
            ).push(m[done]));
        }
        let ghost b10_pre = b10@.map_values(|e: ArchiveEntry| e@);
        let ghost b6_pre = b6@.map_values(|e: ArchiveEntry| e@);
        let ghost b5_pre = b5@.map_values(|e: ArchiveEntry| e@);
        let ghost b4_pre = b4@.map_values(|e: ArchiveEntry| e@);
        let ghost b3_pre = b3@.map_values(|e: ArchiveEntry| e@);
        let ghost b2_pre = b2@.map_values(|e: ArchiveEntry| e@);
        let ghost b1_pre = b1@.map_values(|e: ArchiveEntry| e@);
        let ghost b0_pre = b0@.map_values(|e: ArchiveEntry| e@);
        if e.rtype == 10 {
            b10.push(e);
            proof {
                assert(b10@.map_values(|e: ArchiveEntry| e@) =~= b10_pre.push(m[done]));
            }
        } else if e.rtype == 6 {
            b6.push(e);
            proof {
                assert(b6@.map_values(|e: ArchiveEntry| e@) =~= b6_pre.push(m[done]));
            }
        } else if e.rtype == 5 {
            b5.push(e);
            proof {
                assert(b5@.map_values(|e: ArchiveEntry| e@) =~= b5_pre.push(m[done]));
            }
        } else if e.rtype == 4 {
            b4.push(e);
            proof {
                assert(b4@.map_values(|e: ArchiveEntry| e@) =~= b4_pre.push(m[done]));
            }
        } else if e.rtype == 3 {
            b3.push(e);
            proof {
                assert(b3@.map_values(|e: ArchiveEntry| e@) =~= b3_pre.push(m[done]));
            }
        } else if e.rtype == 2 {
            b2.push(e);
            proof {
                assert(b2@.map_values(|e: ArchiveEntry| e@) =~= b2_pre.push(m[done]));
            }
        } else if e.rtype == 1 {
            b1.push(e);
            proof {
                assert(b1@.map_values(|e: ArchiveEntry| e@) =~= b1_pre.push(m[done]));
            }
        } else if e.rtype == 0 {
            b0.push(e);
            proof {
                assert(b0@.map_values(|e: ArchiveEntry| e@) =~= b0_pre.push(m[done]));
            }
        }
        proof {
            done = done + 1;
        }
    }
    proof {
        assert(m.subrange(done, m.len() as int) =~= Seq::<EntryView>::empty());
        assert(done == m.len());
        assert(m.subrange(0, done) =~= m);
    }
    let mut sorted: Vec<ArchiveEntry> = b10;
    sorted.append(&mut b6);
    sorted.append(&mut b5);
    sorted.append(&mut b4);
    sorted.append(&mut b3);
    sorted.append(&mut b2);
    sorted.append(&mut b1);
    sorted.append(&mut b0);
    proof {
        assert(sorted@.map_values(|e: ArchiveEntry| e@) =~= sort_entries(m));
    }
    sorted
}

/// Serializes laid-out entries into the uncompressed archive bytes.
#[verifier::loop_isolation(false)]
#[verifier::rlimit(30)]
fn serialize_entries(sorted: &Vec<ArchiveEntry>) -> (r: Vec<u8>)
    requires
        names_fit(sorted@.map_values(|e: ArchiveEntry| e@)),
        payloads_fit(sorted@.map_values(|e: ArchiveEntry| e@)),
        sorted@.len() <= 0x7FFF_FFFF,
    ensures
        r@ == archive_plain(sorted@.map_values(|e: ArchiveEntry| e@)),
{
    let ghost es = sorted@.map_values(|e: ArchiveEntry| e@);
    let count = sorted.len();
    let mut plain: Vec<u8> = Vec::new();
    push_le32(&mut plain, count as u32);
    proof {
        assert(es.subrange(0, 0) =~= Seq::<EntryView>::empty());
        assert(Seq::<u8>::empty() + le32_bytes(count as u32) =~= le32_bytes(count as u32));
        assert(le32_bytes(count as u32) + toc_entries_bytes(Seq::<EntryView>::empty())
            =~= le32_bytes(count as u32));
    }
    let mut i: usize = 0;
    while i < sorted.len()
        invariant
            i <= sorted@.len(),
            plain@ == le32_bytes(count as u32) + toc_entries_bytes(es.subrange(0, i as int)),
        decreases sorted@.len() - i,
    {
        let ghost prefix = es.subrange(0, i as int);
        let e = &sorted[i];
        proof {
            assert(e@ == es[i as int]);
        }
        let name_bytes = e.path.as_str().as_bytes();
        proof {
            assert(encode_utf8(es[i as int].path).len() <= 255);
            assert(e@.path == es[i as int].path);
            assert(name_bytes@ == encode_utf8(e.path@));
            assert(name_bytes@.len() <= 255);
        }
        plain.push(name_bytes.len() as u8);
        push_bytes(&mut plain, name_bytes);
        plain.push(e.rtype);
        i = i + 1;
        proof {
            lemma_toc_entries_push(prefix, es[i - 1]);
            assert(es.subrange(0, i as int) =~= prefix.push(es[i - 1]));
            assert(plain@ =~= le32_bytes(count as u32) + toc_entries_bytes(
                es.subrange(0, i as int),
            ));
        }
    }
    proof {
        assert(es.subrange(0, sorted@.len() as int) =~= es);
        assert(es.subrange(0, 0) =~= Seq::<EntryView>::empty());
        assert(plain@ + payloads_bytes(Seq::<EntryView>::empty()) =~= plain@);
    }
    let mut i: usize = 0;
    while i < sorted.len()
        invariant
            i <= sorted@.len(),
            plain@ == le32_bytes(count as u32) + toc_entries_bytes(es) + payloads_bytes(
                es.subrange(0, i as int),
            ),
        decreases sorted@.len() - i,
    {
        let ghost prefix = es.subrange(0, i as int);
        let e = &sorted[i];
        proof {
            assert(e@ == es[i as int]);
        }
        proof {
            assert((es[i as int].payload).len() <= 0x7FFF_FFFF);
            assert(e@.payload == es[i as int].payload);
        }
        push_le32(&mut plain, e.payload.len() as u32);
        push_bytes(&mut plain, e.payload.as_slice());
        i = i + 1;
        proof {
            lemma_payloads_push(prefix, es[i - 1]);
            assert(es.subrange(0, i as int) =~= prefix.push(es[i - 1]));
            assert(plain@ =~= le32_bytes(count as u32) + toc_entries_bytes(es) + payloads_bytes(
                es.subrange(0, i as int),
            ));
        }
    }
    proof {
        assert(es.subrange(0, es.len() as int) =~= es);
        assert(plain@ =~= archive_plain(es));
    }
    plain
}

/// Packs a set of files into archive bytes: files that map to no
/// resource type are skipped; the rest are laid out with
/// higher-numbered types first (ties keeping input order),
/// serialized, and compressed.
#[verifier::loop_isolation(false)]
pub fn pack(files: Vec<InputFile>) -> (r: Result<Vec<u8>, PackError>)
    ensures
        ({
            let fviews = files@.map_values(|f: InputFile| f@);
            match spec_pack(fviews) {
                Ok(bytes) => r is Ok && r.unwrap()@ == bytes && inflate_of(r.unwrap()@) == Some(
                    archive_plain(sort_entries(mapped_entries(fviews))),
                ),
                Err(e) => r == Err::<Vec<u8>, PackError>(e),
            }
        }),
{
    let entries = collect_entries(files);
    if entries.len() == 0 {
        return Err(PackError::NoFiles);
    }
    if entries.len() > 0x7FFF_FFFF {
        return Err(PackError::TooManyEntries);
    }
    proof {
        lemma_mapped_types(files@.map_values(|f: InputFile| f@));
        lemma_sort_entries_len(entries@.map_values(|e: ArchiveEntry| e@));
    }
    let sorted = layout_entries(entries);
    let ghost es = sorted@.map_values(|e: ArchiveEntry| e@);
    let mut i: usize = 0;
    while i < sorted.len()
        invariant
            i <= sorted@.len(),
            forall|j: int| 0 <= j < i ==> encode_utf8(#[trigger] es[j].path).len() <= 255,
        decreases sorted@.len() - i,
    {
        let e = &sorted[i];
        proof {
            assert(e@ == es[i as int]);
        }
        if e.path.as_str().as_bytes().len() > 255 {
            proof {
                assert(encode_utf8(es[i as int].path).len() > 255);
            }
            return Err(PackError::NameTooLong);
        }
        proof {
            assert(encode_utf8(es[i as int].path).len() <= 255);
        }
        i = i + 1;
    }
    let mut i: usize = 0;
    while i < sorted.len()
        invariant
            i <= sorted@.len(),
            forall|j: int| 0 <= j < i ==> (#[trigger] es[j].payload).len() <= 0x7FFF_FFFF,
        decreases sorted@.len() - i,
    {
        let e = &sorted[i];
        proof {
            assert(e@ == es[i as int]);
        }
        if e.payload.len() > 0x7FFF_FFFF {
            proof {
                assert((es[i as int].payload).len() > 0x7FFF_FFFF);
            }
            return Err(PackError::PayloadTooLarge);
        }
        i = i + 1;
    }
    let plain = serialize_entries(&sorted);
    Ok(deflate_bytes(&plain))
}

// ---------------------------------------------------------------
// Unpacking
// ---------------------------------------------------------------

/// Parses `remaining` table-of-contents records at `pos`: each is a
/// length byte, that many path bytes (UTF-8), and a type byte.  On
/// success the result carries the records and the position after the
/// table.
pub open spec fn spec_parse_toc(d: Seq<u8>, pos: int, remaining: int) -> Result<
    (Seq<(Seq<char>, u8)>, int),
    ArchiveError,
>
    decreases remaining,
{
    if remaining <= 0 {
        Ok((seq![], pos))
    } else if pos + 1 > d.len() {
        Err(ArchiveError::Truncated)
    } else {
        let l = d[pos] as int;
        if pos + 1 + l > d.len() {
            Err(ArchiveError::Truncated)
        } else {
            match text_at(d, pos + 1, l) {
                None => Err(ArchiveError::InvalidText),
                Some(name) => {
                    if pos + 2 + l > d.len() {
                        Err(ArchiveError::Truncated)
                    } else {
                        let t = d[pos + 1 + l];
                        match spec_parse_toc(d, pos + 2 + l, remaining - 1) {
                            Err(e) => Err(e),
                            Ok((rest, end)) => Ok((seq![(name, t)] + rest, end)),
                        }
                    }
                },
            }
        }
    }
}

/// Reads one length-prefixed payload blob per table record, in table
/// order, pairing each with its record: the entries read before the
/// first failure, and the failure if there was one.  A negative
/// length cannot be satisfied and counts as a truncated stream.
pub open spec fn spec_read_payloads(d: Seq<u8>, pos: int, metas: Seq<(Seq<char>, u8)>) -> (Seq<
    EntryView,
>, Option<ArchiveError>)
    decreases metas.len(),
{
    if metas.len() == 0 {
        (seq![], None)
    } else if pos + 4 > d.len() {
        (seq![], Some(ArchiveError::Truncated))
    } else {
        let lraw = le32_at(d, pos);
        if lraw >= 0x8000_0000 {
            (seq![], Some(ArchiveError::Truncated))
        } else if pos + 4 + lraw > d.len() {
            (seq![], Some(ArchiveError::Truncated))
        } else {
            let e = EntryView {
                path: metas[0].0,
                rtype: metas[0].1,
                payload: d.subrange(pos + 4, pos + 4 + lraw),
            };
            let (rest, err) = spec_read_payloads(d, pos + 4 + lraw, metas.drop_first());
            (seq![e] + rest, err)
        }
    }
}

/// What unpacking recovers from the decompressed bytes: the entry
/// count, the table of contents, then the positionally coupled
/// payload blobs.  A negative count drives no records.
pub open spec fn spec_unpack_plain(d: Seq<u8>) -> (Seq<EntryView>, Option<ArchiveError>) {
    if d.len() < 4 {
        (seq![], Some(ArchiveError::Truncated))
    } else {
        match spec_parse_toc(d, 4, loop_count(le32_at(d, 0))) {
            Err(e) => (seq![], Some(e)),
            Ok((metas, pos)) => spec_read_payloads(d, pos, metas),
        }
    }
}

/// What [`unpack`] recovers from archive bytes.
pub open spec fn spec_unpack(b: Seq<u8>) -> (Seq<EntryView>, Option<ArchiveError>) {
    match inflate_of(b) {
        None => (seq![], Some(ArchiveError::BadDeflate)),
        Some(d) => spec_unpack_plain(d),
    }
}

/// One parsed table-of-contents record.
struct TocMeta {
    path: String,
    rtype: u8,
}

/// Parses `n` table-of-contents records at the cursor.
#[verifier::loop_isolation(false)]
fn parse_toc(rd: &mut ByteReader, n: usize) -> (r: Result<Vec<TocMeta>, ArchiveError>)
    requires
        old(rd).wf(),
    ensures
        final(rd).data@ == old(rd).data@,
        final(rd).wf(),
        match spec_parse_toc(old(rd).data@, old(rd).pos as int, n as int) {
            Ok((metas, end)) => r is Ok && r.unwrap()@.map_values(
                |m: TocMeta| (m.path@, m.rtype),
            ) == metas && final(rd).pos == end,
            Err(e) => r == Err::<Vec<TocMeta>, ArchiveError>(e),
        },
{
    let ghost d = rd.data@;
    let ghost base = rd.pos as int;
    let mut out: Vec<TocMeta> = Vec::new();
    let mut k: usize = 0;
    proof {
        if spec_parse_toc(d, base, n as int) is Ok {
            let (metas, end) = spec_parse_toc(d, base, n as int).unwrap();
            assert(Seq::<(Seq<char>, u8)>::empty() + metas =~= metas);
        }
    }
    while k < n
        invariant
            rd.wf(),
            rd.data@ == d,
            k <= n,
            out@.len() == k,
            match spec_parse_toc(d, rd.pos as int, n - k) {
                Ok((rest, end)) => spec_parse_toc(d, base, n as int) == Ok::<
                    (Seq<(Seq<char>, u8)>, int),
                    ArchiveError,
                >((out@.map_values(|m: TocMeta| (m.path@, m.rtype)) + rest, end)),
                Err(e) => spec_parse_toc(d, base, n as int) == Err::<
                    (Seq<(Seq<char>, u8)>, int),
                    ArchiveError,
                >(e),
            },
        decreases n - k,
    {
        let l = match rd.read_u8() {
            Ok(v) => v,
            Err(_) => {
                return Err(ArchiveError::Truncated);
            },
        };
        let path = match read_string(rd, l) {
            Ok(s) => s,
            Err(e) => {
                return Err(
                    match e {
                        DecodeError::Truncated => ArchiveError::Truncated,
                        _ => ArchiveError::InvalidText,
                    },
                );
            },
        };
        let rtype = match rd.read_u8() {
            Ok(v) => v,
            Err(_) => {
                return Err(ArchiveError::Truncated);
            },
        };
        let ghost pre = out@.map_values(|m: TocMeta| (m.path@, m.rtype));
        let ghost mv = (path@, rtype);
        out.push(TocMeta { path, rtype });
        k = k + 1;
        proof {
            assert(out@.map_values(|m: TocMeta| (m.path@, m.rtype)) =~= pre.push(mv));
            if spec_parse_toc(d, rd.pos as int, n - k) is Ok {
                let (rest, end) = spec_parse_toc(d, rd.pos as int, n - k).unwrap();
                assert(pre.push(mv) + rest =~= pre + (seq![mv] + rest));
            }
        }
    }
    proof {
        assert(out@.map_values(|m: TocMeta| (m.path@, m.rtype)) + Seq::<(Seq<char>, u8)>::empty()
            =~= out@.map_values(|m: TocMeta| (m.path@, m.rtype)));
    }
    Ok(out)
}

/// Reads the payload blobs for the parsed records, in order, pairing
/// each with its record.
#[verifier::loop_isolation(false)]
fn read_payloads(rd: &mut ByteReader, metas: Vec<TocMeta>) -> (r: (Vec<ArchiveEntry>, Option<
    ArchiveError,
>))
    requires
        old(rd).wf(),
    ensures
        ({
            let (es, err) = spec_read_payloads(
                old(rd).data@,
                old(rd).pos as int,
                metas@.map_values(|m: TocMeta| (m.path@, m.rtype)),
            );
            r.0@.map_values(|e: ArchiveEntry| e@) == es && r.1 == err
        }),
{
    let ghost d = rd.data@;
    let ghost base = rd.pos as int;
    let ghost all = metas@.map_values(|m: TocMeta| (m.path@, m.rtype));
    let mut metas = metas;
    let mut out: Vec<ArchiveEntry> = Vec::new();
    proof {
        let (es, err) = spec_read_payloads(d, base, all);
        assert(Seq::<EntryView>::empty() + es =~= es);
    }
    while metas.len() > 0
        invariant
            rd.wf(),
            rd.data@ == d,
            ({
                let (rest, err) = spec_read_payloads(
                    d,
                    rd.pos as int,
                    metas@.map_values(|m: TocMeta| (m.path@, m.rtype)),
                );
                spec_read_payloads(d, base, all) == (
                    out@.map_values(|e: ArchiveEntry| e@) + rest,
                    err,
                )
            }),
        decreases metas@.len(),
    {
        let ghost pre_seq = metas@;
        let ghost pre_views = metas@.map_values(|m: TocMeta| (m.path@, m.rtype));
        let ghost out_pre = out@.map_values(|e: ArchiveEntry| e@);
        let lraw = match rd.read_u32() {
            Ok(v) => v,
            Err(_) => {
                proof {
                    assert(out_pre + Seq::<EntryView>::empty() =~= out_pre);
                }
                return (out, Some(ArchiveError::Truncated));
            },
        };
        if lraw >= 0x8000_0000 {
            proof {
                assert(out_pre + Seq::<EntryView>::empty() =~= out_pre);
            }
            return (out, Some(ArchiveError::Truncated));
        }
        let payload = match rd.read_bytes(lraw as usize) {
            Ok(v) => v,
            Err(_) => {
                proof {
                    assert(out_pre + Seq::<EntryView>::empty() =~= out_pre);
                }
                return (out, Some(ArchiveError::Truncated));
            },
        };
        let m0 = metas.remove(0);
        proof {
            assert(m0 == pre_seq[0]);
            assert(pre_views[0] == (pre_seq[0].path@, pre_seq[0].rtype));
            assert(metas@ =~= pre_seq.drop_first());
            assert(metas@.map_values(|m: TocMeta| (m.path@, m.rtype)) =~= pre_views.drop_first());
        }
        let ghost ev = EntryView { path: m0.path@, rtype: m0.rtype, payload: payload@ };
        out.push(ArchiveEntry { path: m0.path, rtype: m0.rtype, payload });
        proof {
            assert(out@.map_values(|e: ArchiveEntry| e@) =~= out_pre.push(ev));
            let (rest, err) = spec_read_payloads(
                d,
                rd.pos as int,
                pre_views.drop_first(),
            );
            assert(out_pre.push(ev) + rest =~= out_pre + (seq![ev] + rest));
        }
    }
    proof {
        assert(metas@.map_values(|m: TocMeta| (m.path@, m.rtype)) =~= Seq::<
            (Seq<char>, u8),
        >::empty());
        assert(out@.map_values(|e: ArchiveEntry| e@) + Seq::<EntryView>::empty() =~= out@
            .map_values(|e: ArchiveEntry| e@));
    }
    (out, None)
}

/// Unpacks archive bytes: decompresses, parses the table of
/// contents, then reads each entry's payload in table order.  On a
/// failure inside the payload stream the entries read before it are
/// kept beside the failure.
pub fn unpack(archive: &[u8]) -> (r: (Vec<ArchiveEntry>, Option<ArchiveError>))
    ensures
        ({
            let (es, err) = spec_unpack(archive@);
            r.0@.map_values(|e: ArchiveEntry| e@) == es && r.1 == err
        }),
{
    let empty: Vec<ArchiveEntry> = Vec::new();
    proof {
        assert(empty@.map_values(|e: ArchiveEntry| e@) =~= Seq::<EntryView>::empty());
    }
    let plain = match inflate_bytes(archive) {
        Some(v) => v,
        None => {
            return (empty, Some(ArchiveError::BadDeflate));
        },
    };
    let mut rd = ByteReader::new(plain.as_slice());
    let count_raw = match rd.read_u32() {
        Ok(v) => v,
        Err(_) => {
            return (empty, Some(ArchiveError::Truncated));
        },
    };
    let n = count_of(count_raw);
    let metas = match parse_toc(&mut rd, n) {
        Ok(v) => v,
        Err(e) => {
            return (empty, Some(e));
        },
    };
    read_payloads(&mut rd, metas)
}

} // verus!

