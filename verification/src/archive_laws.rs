//! Laws of the archive container, each proved once and for all:
//! packing and unpacking are inverse, and the packed layout is
//! ordered by resource-type code, descending, as a permutation of the
//! mapped input.

use vstd::prelude::*;
use vstd::utf8::encode_utf8;

use crate::archive::{
    archive_plain, deflate_of, entries_of_type, inflate_of, known_type, le32_bytes,
    mapped_entries, names_fit, payload_entry_bytes, payloads_bytes, payloads_fit, rsrc_type_of,
    sort_entries, spec_pack, spec_parse_toc, spec_read_payloads, spec_unpack, spec_unpack_plain,
    toc_entries_bytes, toc_entry_bytes, types_known, EntryView, InputFileView,
};
use crate::reader::{le32_at, loop_count, text_at};
use crate::ArchiveError;

verus! {

/// The mapping only produces entries with known type codes.
pub(crate) proof fn lemma_mapped_types(files: Seq<InputFileView>)
    ensures
        types_known(mapped_entries(files)),
    decreases files.len(),
{
    if files.len() > 0 {
        lemma_mapped_types(files.drop_first());
        let rest = mapped_entries(files.drop_first());
        match rsrc_type_of(files[0].path) {
            Some(t) => {
                assert(known_type(t));
                assert(forall|i: int|
                    0 <= i < mapped_entries(files).len() ==> known_type(
                        #[trigger] mapped_entries(files)[i].rtype,
                    ));
            },
            None => {},
        }
    }
}

/// Laying entries out by type keeps every entry: each known code
/// sends the head to exactly one segment.
pub(crate) proof fn lemma_sort_entries_len(es: Seq<EntryView>)
    requires
        types_known(es),
    ensures
        sort_entries(es).len() == es.len(),
    decreases es.len(),
{
    if es.len() > 0 {
        assert(types_known(es.drop_first())) by {
            assert(forall|i: int|
                0 <= i < es.drop_first().len() ==> #[trigger] es.drop_first()[i] == es[i + 1]);
        }
        lemma_sort_entries_len(es.drop_first());
        assert(known_type(es[0].rtype));
    }
}

// ---------------------------------------------------------------
// Laws: round trip and layout order
// ---------------------------------------------------------------

/// The table-of-contents records that a sequence of entries yields.
pub open spec fn metas_of(es: Seq<EntryView>) -> Seq<(Seq<char>, u8)> {
    es.map_values(|e: EntryView| (e.path, e.rtype))
}

/// Reading four little-endian bytes back gives the value they were
/// written from.
proof fn lemma_le32_at_bytes(d: Seq<u8>, pos: int, x: u32)
    requires
        0 <= pos,
        pos + 4 <= d.len(),
        d.subrange(pos, pos + 4) == le32_bytes(x),
    ensures
        le32_at(d, pos) == x,
{
    assert(d[pos] == le32_bytes(x)[0] && d[pos + 1] == le32_bytes(x)[1] && d[pos + 2]
        == le32_bytes(x)[2] && d[pos + 3] == le32_bytes(x)[3]) by {
        assert(d.subrange(pos, pos + 4)[0] == d[pos]);
        assert(d.subrange(pos, pos + 4)[1] == d[pos + 1]);
        assert(d.subrange(pos, pos + 4)[2] == d[pos + 2]);
        assert(d.subrange(pos, pos + 4)[3] == d[pos + 3]);
    }
    assert((x % 0x100) + ((x / 0x100) % 0x100) * 0x100 + ((x / 0x1_0000) % 0x100) * 0x1_0000 + ((
    x / 0x100_0000) % 0x100) * 0x100_0000 == x) by (nonlinear_arith);
}

/// Parsing a serialized table of contents recovers the records and
/// stops right after them.
proof fn lemma_parse_toc_round(d: Seq<u8>, pos: int, es: Seq<EntryView>)
    requires
        0 <= pos,
        names_fit(es),
        pos + toc_entries_bytes(es).len() <= d.len(),
        d.subrange(pos, pos + toc_entries_bytes(es).len()) == toc_entries_bytes(es),
    ensures
        spec_parse_toc(d, pos, es.len() as int) == Ok::<(Seq<(Seq<char>, u8)>, int), ArchiveError>(
            (metas_of(es), pos + toc_entries_bytes(es).len()),
        ),
    decreases es.len(),
{
    let bb = toc_entries_bytes(es);
    assert forall|i: int| 0 <= i < bb.len() implies d[pos + i] == #[trigger] bb[i] by {
        assert(d.subrange(pos, pos + bb.len())[i] == d[pos + i]);
    }
    if es.len() == 0 {
        assert(metas_of(es) =~= Seq::<(Seq<char>, u8)>::empty());
    } else {
        let e0 = es[0];
        let rest = es.drop_first();
        let nb = encode_utf8(e0.path);
        let l = nb.len() as int;
        let eb = toc_entry_bytes(e0);
        assert(encode_utf8(es[0].path).len() <= 255);
        assert(eb.len() == l + 2);
        assert(bb == eb + toc_entries_bytes(rest));
        assert(eb == seq![l as u8] + nb + seq![e0.rtype]);
        assert(bb[0] == eb[0]);
        assert(d[pos] == bb[0]);
        assert(eb[0] == l as u8);
        assert(d[pos] as int == l);
        assert(pos + 1 + l <= d.len());
        assert forall|i: int| 0 <= i < l implies d.subrange(pos + 1, pos + 1 + l)[i] == nb[i] by {
            assert(#[trigger] bb[1 + i] == eb[1 + i]);
            assert(d[pos + 1 + i] == bb[1 + i]);
            assert((seq![l as u8] + nb)[1 + i] == nb[i]);
            assert(eb[1 + i] == nb[i]);
        }
        assert(d.subrange(pos + 1, pos + 1 + l) =~= nb);
        vstd::utf8::encode_utf8_valid_utf8(e0.path);
        vstd::utf8::encode_utf8_decode_utf8(e0.path);
        assert(text_at(d, pos + 1, l) == Some(e0.path));
        assert(pos + 2 + l <= d.len());
        assert(bb[1 + l] == eb[1 + l]);
        assert(d[pos + 1 + l] == bb[1 + l]);
        assert(eb[1 + l] == e0.rtype);
        assert(names_fit(rest)) by {
            assert(forall|i: int| 0 <= i < rest.len() ==> #[trigger] rest[i] == es[i + 1]);
        }
        let rb = toc_entries_bytes(rest);
        assert forall|i: int| 0 <= i < rb.len() implies d.subrange(
            pos + 2 + l,
            pos + 2 + l + rb.len(),
        )[i] == rb[i] by {
            assert(#[trigger] bb[l + 2 + i] == rb[i]);
            assert(d[pos + 2 + l + i] == bb[l + 2 + i]);
        }
        assert(d.subrange(pos + 2 + l, pos + 2 + l + toc_entries_bytes(rest).len())
            =~= toc_entries_bytes(rest));
        lemma_parse_toc_round(d, pos + 2 + l, rest);
        assert(seq![(e0.path, e0.rtype)] + metas_of(rest) =~= metas_of(es));
    }
}

/// Reading back a serialized payload stream recovers the entries.
proof fn lemma_read_payloads_round(d: Seq<u8>, pos: int, es: Seq<EntryView>)
    requires
        0 <= pos,
        payloads_fit(es),
        pos + payloads_bytes(es).len() <= d.len(),
        d.subrange(pos, pos + payloads_bytes(es).len()) == payloads_bytes(es),
    ensures
        spec_read_payloads(d, pos, metas_of(es)) == (es, None::<ArchiveError>),
    decreases es.len(),
{
    let bb = payloads_bytes(es);
    assert forall|i: int| 0 <= i < bb.len() implies d[pos + i] == #[trigger] bb[i] by {
        assert(d.subrange(pos, pos + bb.len())[i] == d[pos + i]);
    }
    if es.len() == 0 {
        assert(metas_of(es) =~= Seq::<(Seq<char>, u8)>::empty());
        assert(metas_of(es).len() == 0);
    } else {
        let e0 = es[0];
        let rest = es.drop_first();
        let l = e0.payload.len() as int;
        let eb = payload_entry_bytes(e0);
        assert((es[0].payload).len() <= 0x7FFF_FFFF);
        assert(eb.len() == 4 + l);
        assert(bb == eb + payloads_bytes(rest));
        assert(eb == le32_bytes(l as u32) + e0.payload);
        assert(metas_of(es)[0] == (e0.path, e0.rtype));
        assert(pos + 4 <= d.len());
        assert forall|i: int| 0 <= i < 4 implies #[trigger] d.subrange(pos, pos + 4)[i]
            == le32_bytes(l as u32)[i] by {
            assert(bb[i] == eb[i]);
            assert(d[pos + i] == bb[i]);
            assert(eb[i] == le32_bytes(l as u32)[i]);
        }
        assert(d.subrange(pos, pos + 4) =~= le32_bytes(l as u32));
        lemma_le32_at_bytes(d, pos, l as u32);
        assert(le32_at(d, pos) == l as u32);
        assert(l < 0x8000_0000);
        assert(pos + 4 + l <= d.len());
        assert forall|i: int| 0 <= i < l implies d.subrange(pos + 4, pos + 4 + l)[i]
            == e0.payload[i] by {
            assert(#[trigger] bb[4 + i] == eb[4 + i]);
            assert(d[pos + 4 + i] == bb[4 + i]);
            assert(eb[4 + i] == e0.payload[i]);
        }
        assert(d.subrange(pos + 4, pos + 4 + l) =~= e0.payload);
        assert(payloads_fit(rest)) by {
            assert(forall|i: int| 0 <= i < rest.len() ==> #[trigger] rest[i] == es[i + 1]);
        }
        let rb = payloads_bytes(rest);
        assert forall|i: int| 0 <= i < rb.len() implies d.subrange(
            pos + 4 + l,
            pos + 4 + l + rb.len(),
        )[i] == rb[i] by {
            assert(#[trigger] bb[4 + l + i] == rb[i]);
            assert(d[pos + 4 + l + i] == bb[4 + l + i]);
        }
        assert(d.subrange(pos + 4 + l, pos + 4 + l + payloads_bytes(rest).len()) =~= payloads_bytes(
            rest,
        ));
        lemma_read_payloads_round(d, pos + 4 + l, rest);
        assert(metas_of(es).drop_first() =~= metas_of(rest));
        let entry = EntryView {
            path: metas_of(es)[0].0,
            rtype: metas_of(es)[0].1,
            payload: d.subrange(pos + 4, pos + 4 + l),
        };
        assert(entry == e0);
        assert(seq![e0] + rest =~= es);
    }
}

/// Round trip at the byte level: unpacking the uncompressed archive
/// layout of any entries recovers exactly those entries, with no
/// failure.
pub proof fn lemma_plain_roundtrip(es: Seq<EntryView>)
    requires
        names_fit(es),
        payloads_fit(es),
        es.len() <= 0x7FFF_FFFF,
    ensures
        spec_unpack_plain(archive_plain(es)) == (es, None::<ArchiveError>),
{
    let d = archive_plain(es);
    let n = es.len() as u32;
    let toc = toc_entries_bytes(es);
    let pays = payloads_bytes(es);
    assert(d == le32_bytes(n) + toc + pays);
    assert(d.len() == 4 + toc.len() + pays.len());
    assert(d.subrange(0, 4) =~= le32_bytes(n)) by {
        assert(forall|i: int| 0 <= i < 4 ==> #[trigger] d[i] == le32_bytes(n)[i]);
    }
    lemma_le32_at_bytes(d, 0, n);
    assert(loop_count(le32_at(d, 0)) == es.len());
    assert(d.subrange(4, 4 + toc.len() as int) =~= toc) by {
        assert(forall|i: int| 0 <= i < toc.len() ==> #[trigger] d[4 + i] == toc[i]);
    }
    lemma_parse_toc_round(d, 4, es);
    assert(d.subrange(4 + toc.len() as int, 4 + toc.len() + pays.len() as int) =~= pays) by {
        assert(forall|i: int| 0 <= i < pays.len() ==> #[trigger] d[4 + toc.len() + i] == pays[i]);
    }
    lemma_read_payloads_round(d, 4 + toc.len() as int, es);
}

/// Round trip of the whole pipeline: unpacking what [`pack`]
/// produced recovers exactly the mapped entries in layout order,
/// with no failure.  The second premise is what the compression
/// wrapper guarantees of every pack result.
pub proof fn lemma_pack_unpack_roundtrip(files: Seq<InputFileView>, packed: Seq<u8>)
    requires
        spec_pack(files) is Ok,
        inflate_of(packed) == Some(archive_plain(sort_entries(mapped_entries(files)))),
    ensures
        spec_unpack(packed) == (sort_entries(mapped_entries(files)), None::<ArchiveError>),
        spec_unpack(packed).0.to_multiset() == mapped_entries(files).to_multiset(),
{
    let m = mapped_entries(files);
    let es = sort_entries(m);
    lemma_mapped_types(files);
    lemma_sort_entries_len(m);
    lemma_sort_entries_permutes(m);
    lemma_plain_roundtrip(es);
}

/// Every entry in one type's segment carries that type.
proof fn lemma_entries_of_type_types(es: Seq<EntryView>, t: u8)
    ensures
        forall|k: int|
            0 <= k < entries_of_type(es, t).len() ==> (#[trigger] entries_of_type(es, t)[k]).rtype
                == t,
    decreases es.len(),
{
    if es.len() > 0 {
        lemma_entries_of_type_types(es.drop_first(), t);
        let f = entries_of_type(es, t);
        let fr = entries_of_type(es.drop_first(), t);
        assert forall|k: int| 0 <= k < f.len() implies (#[trigger] f[k]).rtype == t by {
            if es[0].rtype == t {
                if k == 0 {
                    assert(f[0] == es[0]);
                } else {
                    assert(f[k] == fr[k - 1]);
                }
            } else {
                assert(f[k] == fr[k]);
            }
        }
    }
}

/// The layout order law: entries are laid out with resource-type
/// codes descending, so every texture entry (code 10) precedes every
/// entry of a lower code.
pub proof fn lemma_sort_entries_ordered(es: Seq<EntryView>)
    ensures
        forall|i: int, j: int|
            0 <= i < j < sort_entries(es).len() ==> (#[trigger] sort_entries(es)[i]).rtype >= (
            #[trigger] sort_entries(es)[j]).rtype,
{
    lemma_entries_of_type_types(es, 10);
    lemma_entries_of_type_types(es, 6);
    lemma_entries_of_type_types(es, 5);
    lemma_entries_of_type_types(es, 4);
    lemma_entries_of_type_types(es, 3);
    lemma_entries_of_type_types(es, 2);
    lemma_entries_of_type_types(es, 1);
    lemma_entries_of_type_types(es, 0);
    let s = sort_entries(es);
    let l10 = entries_of_type(es, 10).len() as int;
    let l6 = entries_of_type(es, 6).len() as int;
    let l5 = entries_of_type(es, 5).len() as int;
    let l4 = entries_of_type(es, 4).len() as int;
    let l3 = entries_of_type(es, 3).len() as int;
    let l2 = entries_of_type(es, 2).len() as int;
    let l1 = entries_of_type(es, 1).len() as int;
    assert forall|k: int| 0 <= k < s.len() implies code_bound(#[trigger] s[k].rtype, k, l10, l6, l5, l4, l3, l2, l1) by {
        if k < l10 {
            assert(s[k] == entries_of_type(es, 10)[k]);
        } else if k < l10 + l6 {
            assert(s[k] == entries_of_type(es, 6)[k - l10]);
        } else if k < l10 + l6 + l5 {
            assert(s[k] == entries_of_type(es, 5)[k - l10 - l6]);
        } else if k < l10 + l6 + l5 + l4 {
            assert(s[k] == entries_of_type(es, 4)[k - l10 - l6 - l5]);
        } else if k < l10 + l6 + l5 + l4 + l3 {
            assert(s[k] == entries_of_type(es, 3)[k - l10 - l6 - l5 - l4]);
        } else if k < l10 + l6 + l5 + l4 + l3 + l2 {
            assert(s[k] == entries_of_type(es, 2)[k - l10 - l6 - l5 - l4 - l3]);
        } else if k < l10 + l6 + l5 + l4 + l3 + l2 + l1 {
            assert(s[k] == entries_of_type(es, 1)[k - l10 - l6 - l5 - l4 - l3 - l2]);
        } else {
            assert(s[k] == entries_of_type(es, 0)[k - l10 - l6 - l5 - l4 - l3 - l2 - l1]);
        }
    }
}

/// The code a layout position can hold: each segment's code, by
/// where the position falls.
pub open spec fn code_bound(
    c: u8,
    k: int,
    l10: int,
    l6: int,
    l5: int,
    l4: int,
    l3: int,
    l2: int,
    l1: int,
) -> bool {
    if k < l10 {
        c == 10
    } else if k < l10 + l6 {
        c == 6
    } else if k < l10 + l6 + l5 {
        c == 5
    } else if k < l10 + l6 + l5 + l4 {
        c == 4
    } else if k < l10 + l6 + l5 + l4 + l3 {
        c == 3
    } else if k < l10 + l6 + l5 + l4 + l3 + l2 {
        c == 2
    } else if k < l10 + l6 + l5 + l4 + l3 + l2 + l1 {
        c == 1
    } else {
        c == 0
    }
}

/// Laying entries out by type neither drops nor adds an entry: the
/// result is a permutation of the input.
pub proof fn lemma_sort_entries_permutes(es: Seq<EntryView>)
    requires
        types_known(es),
    ensures
        sort_entries(es).to_multiset() == es.to_multiset(),
    decreases es.len(),
{
    broadcast use vstd::seq_lib::lemma_multiset_commutative;
    broadcast use vstd::seq_lib::group_to_multiset_ensures;
    broadcast use vstd::multiset::group_multiset_axioms;

    let f10 = entries_of_type(es, 10);
    let f6 = entries_of_type(es, 6);
    let f5 = entries_of_type(es, 5);
    let f4 = entries_of_type(es, 4);
    let f3 = entries_of_type(es, 3);
    let f2 = entries_of_type(es, 2);
    let f1 = entries_of_type(es, 1);
    let f0 = entries_of_type(es, 0);
    let sum = f10.to_multiset().add(f6.to_multiset()).add(f5.to_multiset()).add(
        f4.to_multiset(),
    ).add(f3.to_multiset()).add(f2.to_multiset()).add(f1.to_multiset()).add(f0.to_multiset());
    assert(sort_entries(es).to_multiset() =~= sum) by {
        assert((f10 + f6).to_multiset() =~= f10.to_multiset().add(f6.to_multiset()));
        assert((f10 + f6 + f5).to_multiset() =~= (f10 + f6).to_multiset().add(f5.to_multiset()));
        assert((f10 + f6 + f5 + f4).to_multiset() =~= (f10 + f6 + f5).to_multiset().add(
            f4.to_multiset(),
        ));
        assert((f10 + f6 + f5 + f4 + f3).to_multiset() =~= (f10 + f6 + f5 + f4).to_multiset().add(
            f3.to_multiset(),
        ));
        assert((f10 + f6 + f5 + f4 + f3 + f2).to_multiset() =~= (f10 + f6 + f5 + f4
            + f3).to_multiset().add(f2.to_multiset()));
        assert((f10 + f6 + f5 + f4 + f3 + f2 + f1).to_multiset() =~= (f10 + f6 + f5 + f4 + f3
            + f2).to_multiset().add(f1.to_multiset()));
        assert((f10 + f6 + f5 + f4 + f3 + f2 + f1 + f0).to_multiset() =~= (f10 + f6 + f5 + f4 + f3
            + f2 + f1).to_multiset().add(f0.to_multiset()));
    }
    if es.len() == 0 {
        assert(f10 =~= Seq::<EntryView>::empty());
        assert(f6 =~= Seq::<EntryView>::empty());
        assert(f5 =~= Seq::<EntryView>::empty());
        assert(f4 =~= Seq::<EntryView>::empty());
        assert(f3 =~= Seq::<EntryView>::empty());
        assert(f2 =~= Seq::<EntryView>::empty());
        assert(f1 =~= Seq::<EntryView>::empty());
        assert(f0 =~= Seq::<EntryView>::empty());
        assert(sort_entries(es) =~= es);
    } else {
        let e0 = es[0];
        let rest = es.drop_first();
        assert(types_known(rest)) by {
            assert(forall|i: int| 0 <= i < rest.len() ==> #[trigger] rest[i] == es[i + 1]);
        }
        lemma_sort_entries_permutes(rest);
        let g10 = entries_of_type(rest, 10);
        let g6 = entries_of_type(rest, 6);
        let g5 = entries_of_type(rest, 5);
        let g4 = entries_of_type(rest, 4);
        let g3 = entries_of_type(rest, 3);
        let g2 = entries_of_type(rest, 2);
        let g1 = entries_of_type(rest, 1);
        let g0 = entries_of_type(rest, 0);
        let rsum = g10.to_multiset().add(g6.to_multiset()).add(g5.to_multiset()).add(
            g4.to_multiset(),
        ).add(g3.to_multiset()).add(g2.to_multiset()).add(g1.to_multiset()).add(g0.to_multiset());
        assert(sort_entries(rest).to_multiset() =~= rsum) by {
            assert((g10 + g6).to_multiset() =~= g10.to_multiset().add(g6.to_multiset()));
            assert((g10 + g6 + g5).to_multiset() =~= (g10 + g6).to_multiset().add(
                g5.to_multiset(),
            ));
            assert((g10 + g6 + g5 + g4).to_multiset() =~= (g10 + g6 + g5).to_multiset().add(
                g4.to_multiset(),
            ));
            assert((g10 + g6 + g5 + g4 + g3).to_multiset() =~= (g10 + g6 + g5
                + g4).to_multiset().add(g3.to_multiset()));
            assert((g10 + g6 + g5 + g4 + g3 + g2).to_multiset() =~= (g10 + g6 + g5 + g4
                + g3).to_multiset().add(g2.to_multiset()));
            assert((g10 + g6 + g5 + g4 + g3 + g2 + g1).to_multiset() =~= (g10 + g6 + g5 + g4 + g3
                + g2).to_multiset().add(g1.to_multiset()));
            assert((g10 + g6 + g5 + g4 + g3 + g2 + g1 + g0).to_multiset() =~= (g10 + g6 + g5 + g4
                + g3 + g2 + g1).to_multiset().add(g0.to_multiset()));
        }
        // the head joins exactly the segment of its own type
        assert(known_type(e0.rtype));
        if e0.rtype == 10 {
            assert(f10 == seq![e0] + g10);
            assert(f10.to_multiset() =~= g10.to_multiset().insert(e0)) by {
                assert(seq![e0] + g10 =~= Seq::<EntryView>::empty().push(e0).add(g10));
            }
        } else {
            assert(f10 == g10);
        }
        if e0.rtype == 6 {
            assert(f6 == seq![e0] + g6);
            assert(f6.to_multiset() =~= g6.to_multiset().insert(e0)) by {
                assert(seq![e0] + g6 =~= Seq::<EntryView>::empty().push(e0).add(g6));
            }
        } else {
            assert(f6 == g6);
        }
        if e0.rtype == 5 {
            assert(f5 == seq![e0] + g5);
            assert(f5.to_multiset() =~= g5.to_multiset().insert(e0)) by {
                assert(seq![e0] + g5 =~= Seq::<EntryView>::empty().push(e0).add(g5));
            }
        } else {
            assert(f5 == g5);
        }
        if e0.rtype == 4 {
            assert(f4 == seq![e0] + g4);
            assert(f4.to_multiset() =~= g4.to_multiset().insert(e0)) by {
                assert(seq![e0] + g4 =~= Seq::<EntryView>::empty().push(e0).add(g4));
            }
        } else {
            assert(f4 == g4);
        }
        if e0.rtype == 3 {
            assert(f3 == seq![e0] + g3);
            assert(f3.to_multiset() =~= g3.to_multiset().insert(e0)) by {
                assert(seq![e0] + g3 =~= Seq::<EntryView>::empty().push(e0).add(g3));
            }
        } else {
            assert(f3 == g3);
        }
        if e0.rtype == 2 {
            assert(f2 == seq![e0] + g2);
            assert(f2.to_multiset() =~= g2.to_multiset().insert(e0)) by {
                assert(seq![e0] + g2 =~= Seq::<EntryView>::empty().push(e0).add(g2));
            }
        } else {
            assert(f2 == g2);
        }
        if e0.rtype == 1 {
            assert(f1 == seq![e0] + g1);
            assert(f1.to_multiset() =~= g1.to_multiset().insert(e0)) by {
                assert(seq![e0] + g1 =~= Seq::<EntryView>::empty().push(e0).add(g1));
            }
        } else {
            assert(f1 == g1);
        }
        if e0.rtype == 0 {
            assert(f0 == seq![e0] + g0);
            assert(f0.to_multiset() =~= g0.to_multiset().insert(e0)) by {
                assert(seq![e0] + g0 =~= Seq::<EntryView>::empty().push(e0).add(g0));
            }
        } else {
            assert(f0 == g0);
        }
        assert(sum =~= rsum.insert(e0));
        assert(es.remove(0) =~= rest);
        assert(rest.to_multiset() =~= es.to_multiset().remove(e0));
        assert(es.contains(e0));
        assert(es.to_multiset().count(e0) > 0);
        assert(es.to_multiset() =~= rest.to_multiset().insert(e0));
    }
}


/// The ordering law at the archive level: in every archive that
/// [`crate::archive::pack`] produces, the recovered entries carry
/// non-increasing resource-type codes, so texture entries always
/// precede geometry entries in the table of contents.
pub proof fn lemma_packed_archive_ordered(files: Seq<InputFileView>, packed: Seq<u8>)
    requires
        spec_pack(files) is Ok,
        inflate_of(packed) == Some(archive_plain(sort_entries(mapped_entries(files)))),
    ensures
        ({
            let (es, err) = spec_unpack(packed);
            forall|i: int, j: int|
                0 <= i < j < es.len() ==> (#[trigger] es[i]).rtype >= (#[trigger] es[j]).rtype
        }),
{
    lemma_pack_unpack_roundtrip(files, packed);
    lemma_sort_entries_ordered(mapped_entries(files));
}

} // verus!
