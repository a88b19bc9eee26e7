use vstd::prelude::*;
use crate::engine::{
    conforms, kinds_of, LayoutField, datum_bytes, datum_len, datum_lens, datum_of, decode_record, fitting, has_kind, kind_lens,
    lemma_datum_bytes_len, lemma_total_prefix, lemma_total_step, record_bytes, total, values_of,
    Datum, Kind, Slot,
};
use crate::order::ByteOrder;
use crate::wire::{
    lemma_pow256_values, lemma_uint_cross_decode, lemma_uint_round_trip, lemma_uint_value_bound,
};

verus! {

/// Whether the value is an integer whose bytes are not the same forwards and
/// backwards. Byte arrays are written as they are in either byte order.
pub open spec fn order_sensitive(d: Datum) -> bool {
    match d {
        Datum::Bytes(_) => false,
        _ => datum_bytes(d, ByteOrder::Little) != datum_bytes(d, ByteOrder::Little).reverse(),
    }
}

/// Whether the values are of the kinds of the layout, field for field.
pub open spec fn have_kinds(ds: Seq<Datum>, ks: Seq<Kind>) -> bool {
    &&& ds.len() == ks.len()
    &&& forall|i: int| 0 <= i < ds.len() ==> has_kind(#[trigger] ds[i], ks[i])
}

/// A record takes as many bytes as its values take together.
pub proof fn lemma_record_len(ds: Seq<Datum>, order: ByteOrder)
    ensures
        record_bytes(ds, order).len() == total(datum_lens(ds)),
    decreases ds.len(),
{
    if ds.len() > 0 {
        lemma_record_len(ds.drop_last(), order);
        lemma_datum_bytes_len(ds.last(), order);
        assert(datum_lens(ds).drop_last() =~= datum_lens(ds.drop_last()));
    }
}

/// Values of the kinds of a layout take the bytes that the layout says.
pub proof fn lemma_lens_agree(ds: Seq<Datum>, ks: Seq<Kind>)
    requires
        have_kinds(ds, ks),
    ensures
        datum_lens(ds) == kind_lens(ks),
{
    assert(datum_lens(ds) =~= kind_lens(ks));
}

/// Fields are written in declaration order: the bytes of field `i` stand in
/// the record's bytes right behind those of the fields before it.
pub proof fn lemma_fields_in_order(ds: Seq<Datum>, order: ByteOrder, i: int)
    requires
        0 <= i < ds.len(),
    ensures
        total(datum_lens(ds).take(i + 1)) <= record_bytes(ds, order).len(),
        record_bytes(ds, order).subrange(
            total(datum_lens(ds).take(i)) as int,
            total(datum_lens(ds).take(i + 1)) as int,
        ) == datum_bytes(ds[i], order),
    decreases ds.len(),
{
    let lens = datum_lens(ds);
    let head = ds.drop_last();
    lemma_record_len(ds, order);
    lemma_record_len(head, order);
    lemma_datum_bytes_len(ds.last(), order);
    lemma_total_step(lens, i);
    assert(lens.drop_last() =~= datum_lens(head));
    if i == ds.len() - 1 {
        assert(lens.take(i) =~= lens.drop_last());
        assert(lens.take(i + 1) =~= lens);
        assert(record_bytes(ds, order).subrange(
            total(lens.take(i)) as int,
            total(lens.take(i + 1)) as int,
        ) =~= datum_bytes(ds[i], order));
    } else {
        lemma_fields_in_order(head, order, i);
        assert(datum_lens(head).take(i) =~= lens.take(i));
        assert(datum_lens(head).take(i + 1) =~= lens.take(i + 1));
        assert(record_bytes(ds, order).subrange(
            total(lens.take(i)) as int,
            total(lens.take(i + 1)) as int,
        ) =~= record_bytes(head, order).subrange(
            total(lens.take(i)) as int,
            total(lens.take(i + 1)) as int,
        ));
    }
}

/// Reading the bytes of a value in the byte order they were written in gives
/// the value back.
pub proof fn lemma_datum_round_trip(d: Datum, k: Kind, order: ByteOrder)
    requires
        has_kind(d, k),
    ensures
        datum_of(k, datum_bytes(d, order), order) == d,
{
    lemma_pow256_values();
    match d {
        Datum::U8(x) => lemma_uint_round_trip(x as nat, 1, order),
        Datum::U16(x) => lemma_uint_round_trip(x as nat, 2, order),
        Datum::U32(x) => lemma_uint_round_trip(x as nat, 4, order),
        Datum::U64(x) => lemma_uint_round_trip(x as nat, 8, order),
        Datum::Bytes(_) => {},
    }
}

/// Round trip: what was written in one byte order is read back in that byte
/// order field for field, whatever follows it in the source, and the read
/// does not run short.
pub proof fn lemma_round_trip(ds: Seq<Datum>, ks: Seq<Kind>, order: ByteOrder, tail: Seq<u8>)
    requires
        have_kinds(ds, ks),
    ensures
        decode_record(ks, record_bytes(ds, order) + tail, order) == ds,
        fitting(kind_lens(ks), (record_bytes(ds, order) + tail).len()) == ks.len(),
{
    let bytes = record_bytes(ds, order);
    let lens = kind_lens(ks);
    lemma_lens_agree(ds, ks);
    lemma_record_len(ds, order);
    assert forall|i: int| 0 <= i < ds.len() implies decode_record(ks, bytes + tail, order)[i]
        == ds[i] by {
        lemma_fields_in_order(ds, order, i);
        lemma_total_step(lens, i);
        assert((bytes + tail).subrange(total(lens.take(i)) as int, total(lens.take(i + 1)) as int)
            =~= bytes.subrange(total(lens.take(i)) as int, total(lens.take(i + 1)) as int));
        lemma_datum_round_trip(ds[i], ks[i], order);
    }
    assert(decode_record(ks, bytes + tail, order) =~= ds);
}

/// Round trip through a layout: a record that has the fields of a layout is
/// read back by that layout, in the byte order it was written in.
pub proof fn lemma_conforming_round_trip(
    record: Seq<Slot>,
    layout: Seq<LayoutField>,
    order: ByteOrder,
    tail: Seq<u8>,
)
    requires
        conforms(record, layout),
    ensures
        decode_record(kinds_of(layout), record_bytes(values_of(record), order) + tail, order)
            == values_of(record),
{
    assert(have_kinds(values_of(record), kinds_of(layout))) by {
        assert forall|i: int| 0 <= i < record.len() implies has_kind(
            #[trigger] values_of(record)[i],
            kinds_of(layout)[i],
        ) by {
            assert(has_kind(record[i].value@, layout[i].kind));
        }
    }
    lemma_round_trip(values_of(record), kinds_of(layout), order, tail);
}

/// Byte-order distinctness: a record with a field that reads differently in
/// the two byte orders has different bytes in the two.
pub proof fn lemma_orders_differ(ds: Seq<Datum>, i: int)
    requires
        0 <= i < ds.len(),
        order_sensitive(ds[i]),
    ensures
        record_bytes(ds, ByteOrder::Little) != record_bytes(ds, ByteOrder::Big),
{
    lemma_fields_in_order(ds, ByteOrder::Little, i);
    lemma_fields_in_order(ds, ByteOrder::Big, i);
}

/// A value that reads differently in the two byte orders is not given back by
/// the reader of the other byte order.
pub proof fn lemma_datum_cross_read(d: Datum, k: Kind, order: ByteOrder, other: ByteOrder)
    requires
        has_kind(d, k),
        order_sensitive(d),
        order != other,
    ensures
        datum_of(k, datum_bytes(d, order), other) != d,
{
    lemma_pow256_values();
    lemma_datum_bytes_len(d, order);
    lemma_uint_value_bound(datum_bytes(d, order), other);
    match d {
        Datum::U8(x) => lemma_uint_cross_decode(x as nat, 1, order, other),
        Datum::U16(x) => lemma_uint_cross_decode(x as nat, 2, order, other),
        Datum::U32(x) => lemma_uint_cross_decode(x as nat, 4, order, other),
        Datum::U64(x) => lemma_uint_cross_decode(x as nat, 8, order, other),
        Datum::Bytes(_) => {},
    }
}

/// Only the matching reader inverts a write: a record with a field that
/// reads differently in the two byte orders is not read back by the reader of
/// the other byte order.
pub proof fn lemma_cross_read(
    ds: Seq<Datum>,
    ks: Seq<Kind>,
    i: int,
    order: ByteOrder,
    other: ByteOrder,
)
    requires
        have_kinds(ds, ks),
        0 <= i < ds.len(),
        order_sensitive(ds[i]),
        order != other,
    ensures
        decode_record(ks, record_bytes(ds, order), other) != ds,
{
    let lens = kind_lens(ks);
    lemma_lens_agree(ds, ks);
    lemma_fields_in_order(ds, order, i);
    lemma_datum_cross_read(ds[i], ks[i], order, other);
    assert(decode_record(ks, record_bytes(ds, order), other)[i] == datum_of(
        ks[i],
        datum_bytes(ds[i], order),
        other,
    ));
}

/// Short circuit: the walk stops at the first field that does not fit. Every
/// prefix up to the stopping point fits, and the field at the stopping point,
/// if there is one, does not fit behind the fields before it.
pub proof fn lemma_stops_at_first_failure(lens: Seq<nat>, room: nat)
    ensures
        fitting(lens, room) <= lens.len(),
        forall|j: int| 0 <= j <= fitting(lens, room) ==> total(#[trigger] lens.take(j)) <= room,
        fitting(lens, room) < lens.len() ==> total(lens.take(fitting(lens, room) as int + 1)) > room,
    decreases lens.len(),
{
    if lens.len() == 0 {
        assert forall|j: int| 0 <= j <= 0 implies total(#[trigger] lens.take(j)) <= room by {
            assert(lens.take(j) =~= lens);
        }
    } else if total(lens) <= room {
        assert forall|j: int| 0 <= j <= lens.len() implies total(#[trigger] lens.take(j))
            <= room by {
            lemma_total_prefix(lens, j);
        }
    } else {
        let head = lens.drop_last();
        let k = fitting(head, room) as int;
        lemma_stops_at_first_failure(head, room);
        assert forall|j: int| 0 <= j <= k implies total(#[trigger] lens.take(j)) <= room by {
            assert(head.take(j) =~= lens.take(j));
        }
        if k < head.len() {
            assert(head.take(k + 1) =~= lens.take(k + 1));
        } else {
            assert(lens.take(k + 1) =~= lens);
        }
    }
}

/// Positional and named records agree: two records whose values are equal
/// field for field have the same bytes, whatever their keys are.
pub proof fn lemma_keys_do_not_matter(a: Seq<Slot>, b: Seq<Slot>, order: ByteOrder)
    requires
        a.len() == b.len(),
        forall|i: int| 0 <= i < a.len() ==> a[i].value@ == b[i].value@,
    ensures
        record_bytes(values_of(a), order) == record_bytes(values_of(b), order),
{
    assert(values_of(a) =~= values_of(b));
}

} // verus!
