use vstd::prelude::*;
use crate::emit::{key_of, Key};
use crate::order::ByteOrder;
use crate::schema::Input;
use crate::wire::{
    decode_uint, encode_uint, lemma_pow256_values, lemma_uint_bytes_len, lemma_uint_value_bound,
    uint_bytes, uint_value,
};

verus! {

/// The wire type of a field.
#[derive(Clone, Copy, Debug, PartialEq, Eq)]
pub enum Kind {
    U8,
    U16,
    U32,
    U64,
    /// A byte array of the given length.
    Bytes(usize),
}

/// The value of a field.
#[derive(Clone, Debug, PartialEq, Eq)]
pub enum Value {
    U8(u8),
    U16(u16),
    U32(u32),
    U64(u64),
    Bytes(Vec<u8>),
}

/// What a `Value` stands for.
pub enum Datum {
    U8(u8),
    U16(u16),
    U32(u32),
    U64(u64),
    Bytes(Seq<u8>),
}

impl View for Value {
    type V = Datum;

    open spec fn view(&self) -> Datum {
        match *self {
            Value::U8(x) => Datum::U8(x),
            Value::U16(x) => Datum::U16(x),
            Value::U32(x) => Datum::U32(x),
            Value::U64(x) => Datum::U64(x),
            Value::Bytes(b) => Datum::Bytes(b@),
        }
    }
}

/// One field of a record value.
#[derive(Clone, Debug, PartialEq, Eq)]
pub struct Slot {
    pub key: Key,
    pub value: Value,
}

/// One field of a record layout.
#[derive(Clone, Debug, PartialEq, Eq)]
pub struct LayoutField {
    pub key: Key,
    pub kind: Kind,
}

/// A failure of a single write or read.
#[derive(Clone, Copy, Debug, PartialEq, Eq)]
pub enum CodecError {
    /// The sink has `room` bytes left and the field takes `needed`.
    SinkFull { needed: usize, room: usize },
    /// The source has `available` bytes left and the field takes `needed`.
    Truncated { needed: usize, available: usize },
    /// The record does not have the fields of the layout.
    Mismatch,
}

/// The number of bytes a field of the given kind takes.
pub open spec fn kind_len(k: Kind) -> nat {
    match k {
        Kind::U8 => 1,
        Kind::U16 => 2,
        Kind::U32 => 4,
        Kind::U64 => 8,
        Kind::Bytes(n) => n as nat,
    }
}

/// The number of bytes a value takes.
pub open spec fn datum_len(d: Datum) -> nat {
    match d {
        Datum::U8(_) => 1,
        Datum::U16(_) => 2,
        Datum::U32(_) => 4,
        Datum::U64(_) => 8,
        Datum::Bytes(b) => b.len(),
    }
}

/// Whether a value is of the given kind.
pub open spec fn has_kind(d: Datum, k: Kind) -> bool {
    match (d, k) {
        (Datum::U8(_), Kind::U8) => true,
        (Datum::U16(_), Kind::U16) => true,
        (Datum::U32(_), Kind::U32) => true,
        (Datum::U64(_), Kind::U64) => true,
        (Datum::Bytes(b), Kind::Bytes(n)) => b.len() == n,
        _ => false,
    }
}

/// The bytes of a value in the given byte order. Byte arrays are the same in
/// both.
pub open spec fn datum_bytes(d: Datum, order: ByteOrder) -> Seq<u8> {
    match d {
        Datum::U8(x) => uint_bytes(x as nat, 1, order),
        Datum::U16(x) => uint_bytes(x as nat, 2, order),
        Datum::U32(x) => uint_bytes(x as nat, 4, order),
        Datum::U64(x) => uint_bytes(x as nat, 8, order),
        Datum::Bytes(b) => b,
    }
}

/// The value of the given kind that the bytes `b` hold in the given order.
pub open spec fn datum_of(k: Kind, b: Seq<u8>, order: ByteOrder) -> Datum {
    match k {
        Kind::U8 => Datum::U8(uint_value(b, order) as u8),
        Kind::U16 => Datum::U16(uint_value(b, order) as u16),
        Kind::U32 => Datum::U32(uint_value(b, order) as u32),
        Kind::U64 => Datum::U64(uint_value(b, order) as u64),
        Kind::Bytes(_) => Datum::Bytes(b),
    }
}

/// The values of a record, in field order.
pub open spec fn values_of(record: Seq<Slot>) -> Seq<Datum> {
    Seq::new(record.len(), |i: int| record[i].value@)
}

/// The kinds of a layout, in field order.
pub open spec fn kinds_of(layout: Seq<LayoutField>) -> Seq<Kind> {
    Seq::new(layout.len(), |i: int| layout[i].kind)
}

/// The byte counts of the values, in field order.
pub open spec fn datum_lens(ds: Seq<Datum>) -> Seq<nat> {
    Seq::new(ds.len(), |i: int| datum_len(ds[i]))
}

/// The byte counts of the kinds, in field order.
pub open spec fn kind_lens(ks: Seq<Kind>) -> Seq<nat> {
    Seq::new(ks.len(), |i: int| kind_len(ks[i]))
}

/// The sum of the byte counts.
pub open spec fn total(lens: Seq<nat>) -> nat
    decreases lens.len(),
{
    if lens.len() == 0 {
        0
    } else {
        total(lens.drop_last()) + lens.last()
    }
}

/// The number of leading fields that fit together into `room` bytes: the
/// length of the longest prefix whose byte counts sum to at most `room`.
pub open spec fn fitting(lens: Seq<nat>, room: nat) -> nat
    decreases lens.len(),
{
    if lens.len() == 0 {
        0
    } else if total(lens) <= room {
        lens.len()
    } else {
        fitting(lens.drop_last(), room)
    }
}

/// The bytes of a record: the bytes of its values, one after the other in
/// field order.
pub open spec fn record_bytes(ds: Seq<Datum>, order: ByteOrder) -> Seq<u8>
    decreases ds.len(),
{
    if ds.len() == 0 {
        Seq::empty()
    } else {
        record_bytes(ds.drop_last(), order) + datum_bytes(ds.last(), order)
    }
}

/// The values that `b` holds for a layout: field `i` is taken from the bytes
/// that follow those of the fields before it.
pub open spec fn decode_record(ks: Seq<Kind>, b: Seq<u8>, order: ByteOrder) -> Seq<Datum> {
    Seq::new(
        ks.len(),
        |i: int|
            datum_of(
                ks[i],
                b.subrange(total(kind_lens(ks).take(i)) as int, total(kind_lens(ks).take(i + 1)) as int),
                order,
            ),
    )
}

/// Whether two keys address the same field.
pub open spec fn same_key(a: Key, b: Key) -> bool {
    match (a, b) {
        (Key::Label(x), Key::Label(y)) => x@ == y@,
        (Key::Position(i), Key::Position(j)) => i == j,
        _ => false,
    }
}

/// Whether a record has the fields of a layout: as many, and field for field
/// the same key and a value of the field's kind.
pub open spec fn conforms(record: Seq<Slot>, layout: Seq<LayoutField>) -> bool {
    &&& record.len() == layout.len()
    &&& forall|i: int|
        0 <= i < record.len() ==> same_key((#[trigger] record[i]).key, layout[i].key) && has_kind(
            record[i].value@,
            layout[i].kind,
        )
}

/// What a walk over the values `ds` leaves of a sink that held `before` and
/// had `room` bytes left: the bytes of the leading fields that fit, in field
/// order, and success, or else the failure of the first field that did not
/// fit.
pub open spec fn walked(
    before: Seq<u8>,
    room: nat,
    after: Seq<u8>,
    ds: Seq<Datum>,
    order: ByteOrder,
    r: Result<(), CodecError>,
) -> bool {
    let lens = datum_lens(ds);
    let done = fitting(lens, room) as int;
    &&& after == before + record_bytes(ds.take(done), order)
    &&& done == ds.len() ==> r == Ok::<(), CodecError>(())
    &&& done < ds.len() ==> r == write_outcome(ds[done], (room - total(lens.take(done))) as nat)
        && r is Err
}

/// What writing one value gives when the sink has `room` bytes left.
pub open spec fn write_outcome(d: Datum, room: nat) -> Result<(), CodecError> {
    if datum_len(d) <= room {
        Ok(())
    } else {
        Err(CodecError::SinkFull { needed: datum_len(d) as usize, room: room as usize })
    }
}

/// The failure of reading a field of `needed` bytes with `available` left.
pub open spec fn read_failure(needed: nat, available: nat) -> CodecError {
    CodecError::Truncated { needed: needed as usize, available: available as usize }
}

/// A value takes as many bytes in one byte order as in the other.
pub proof fn lemma_datum_bytes_len(d: Datum, order: ByteOrder)
    ensures
        datum_bytes(d, order).len() == datum_len(d),
{
    match d {
        Datum::U8(x) => lemma_uint_bytes_len(x as nat, 1, order),
        Datum::U16(x) => lemma_uint_bytes_len(x as nat, 2, order),
        Datum::U32(x) => lemma_uint_bytes_len(x as nat, 4, order),
        Datum::U64(x) => lemma_uint_bytes_len(x as nat, 8, order),
        Datum::Bytes(_) => {},
    }
}

/// The sum of a prefix grows by the byte count that follows it.
pub proof fn lemma_total_step(lens: Seq<nat>, i: int)
    requires
        0 <= i < lens.len(),
    ensures
        total(lens.take(i + 1)) == total(lens.take(i)) + lens[i],
{
    assert(lens.take(i + 1).drop_last() =~= lens.take(i));
}

/// No prefix sums to more than the whole.
pub proof fn lemma_total_prefix(lens: Seq<nat>, j: int)
    requires
        0 <= j <= lens.len(),
    ensures
        total(lens.take(j)) <= total(lens),
    decreases lens.len(),
{
    if j == lens.len() {
        assert(lens.take(j) =~= lens);
    } else {
        lemma_total_prefix(lens.drop_last(), j);
        assert(lens.drop_last().take(j) =~= lens.take(j));
    }
}

/// Where the prefix of length `i` fits and the next field does not, exactly `i`
/// fields fit.
pub proof fn lemma_fitting_at(lens: Seq<nat>, room: nat, i: int)
    requires
        0 <= i < lens.len(),
        total(lens.take(i)) <= room,
        total(lens.take(i + 1)) > room,
    ensures
        fitting(lens, room) == i,
    decreases lens.len(),
{
    lemma_total_prefix(lens, i + 1);
    if lens.len() == i + 1 {
        assert(lens.drop_last() =~= lens.take(i));
        assert(lens.take(i + 1) =~= lens);
        lemma_fitting_all(lens.take(i), room);
    } else {
        assert(lens.drop_last().take(i) =~= lens.take(i));
        assert(lens.drop_last().take(i + 1) =~= lens.take(i + 1));
        lemma_fitting_at(lens.drop_last(), room, i);
    }
}

/// Where everything fits, every field fits.
pub proof fn lemma_fitting_all(lens: Seq<nat>, room: nat)
    requires
        total(lens) <= room,
    ensures
        fitting(lens, room) == lens.len(),
{
}

impl Kind {
    /// The number of bytes a field of this kind takes.
    pub fn len(&self) -> (n: usize)
        ensures
            n == kind_len(*self),
    {
        match self {
            Kind::U8 => 1,
            Kind::U16 => 2,
            Kind::U32 => 4,
            Kind::U64 => 8,
            Kind::Bytes(n) => *n,
        }
    }
}

/// A copy of the bytes from `from` up to `to`.
pub fn copy_range(src: &Vec<u8>, from: usize, to: usize) -> (out: Vec<u8>)
    requires
        from <= to <= src.len(),
    ensures
        out@ == src@.subrange(from as int, to as int),
{
    let mut out: Vec<u8> = Vec::new();
    let mut i: usize = from;
    while i < to
        invariant
            from <= i <= to <= src.len(),
            out@ == src@.subrange(from as int, i as int),
        decreases to - i,
    {
        out.push(src[i]);
        assert(out@ =~= src@.subrange(from as int, i + 1));
        i += 1;
    }
    out
}

impl Value {
    /// The kind of the value.
    pub fn kind(&self) -> (k: Kind)
        ensures
            has_kind(self@, k),
            kind_len(k) == datum_len(self@),
    {
        match self {
            Value::U8(_) => Kind::U8,
            Value::U16(_) => Kind::U16,
            Value::U32(_) => Kind::U32,
            Value::U64(_) => Kind::U64,
            Value::Bytes(b) => Kind::Bytes(b.len()),
        }
    }

    /// Whether the value is of the given kind.
    pub fn is_of(&self, kind: Kind) -> (b: bool)
        ensures
            b == has_kind(self@, kind),
    {
        match (self, kind) {
            (Value::U8(_), Kind::U8) => true,
            (Value::U16(_), Kind::U16) => true,
            (Value::U32(_), Kind::U32) => true,
            (Value::U64(_), Kind::U64) => true,
            (Value::Bytes(b), Kind::Bytes(n)) => b.len() == n,
            _ => false,
        }
    }

    /// The bytes of the value in the given byte order.
    pub fn encode(&self, order: ByteOrder) -> (out: Vec<u8>)
        ensures
            out@ == datum_bytes(self@, order),
            out.len() == datum_len(self@),
    {
        match self {
            Value::U8(x) => {
                proof { lemma_uint_bytes_len(*x as nat, 1, order); }
                encode_uint(*x as u64, 1, order)
            },
            Value::U16(x) => {
                proof { lemma_uint_bytes_len(*x as nat, 2, order); }
                encode_uint(*x as u64, 2, order)
            },
            Value::U32(x) => {
                proof { lemma_uint_bytes_len(*x as nat, 4, order); }
                encode_uint(*x as u64, 4, order)
            },
            Value::U64(x) => {
                proof { lemma_uint_bytes_len(*x as nat, 8, order); }
                encode_uint(*x, 8, order)
            },
            Value::Bytes(b) => {
                let out = copy_range(b, 0, b.len());
                assert(b@.subrange(0, b.len() as int) =~= b@);
                out
            },
        }
    }

    /// The value of the given kind that the bytes of `src` from `pos` on hold
    /// in the given byte order.
    pub fn decode(kind: Kind, src: &Vec<u8>, pos: usize, order: ByteOrder) -> (v: Value)
        requires
            pos + kind_len(kind) <= src.len(),
        ensures
            v@ == datum_of(kind, src@.subrange(pos as int, pos + kind_len(kind)), order),
            has_kind(v@, kind),
    {
        proof {
            lemma_uint_value_bound(src@.subrange(pos as int, pos + kind_len(kind)), order);
            lemma_pow256_values();
        }
        match kind {
            Kind::U8 => Value::U8(decode_uint(src, pos, 1, order) as u8),
            Kind::U16 => Value::U16(decode_uint(src, pos, 2, order) as u16),
            Kind::U32 => Value::U32(decode_uint(src, pos, 4, order) as u32),
            Kind::U64 => Value::U64(decode_uint(src, pos, 8, order)),
            Kind::Bytes(n) => Value::Bytes(copy_range(src, pos, pos + n)),
        }
    }
}

/// Whether the record has the fields of the layout.
pub fn conforms_to(record: &Vec<Slot>, layout: &Vec<LayoutField>) -> (b: bool)
    ensures
        b == conforms(record@, layout@),
{
    if record.len() != layout.len() {
        return false;
    }
    let mut i: usize = 0;
    while i < record.len()
        invariant
            i <= record.len() == layout.len(),
            forall|j: int|
                0 <= j < i ==> same_key((#[trigger] record[j]).key, layout[j].key) && has_kind(
                    record[j].value@,
                    layout[j].kind,
                ),
        decreases record.len() - i,
    {
        if !record[i].key.addresses(&layout[i].key) || !record[i].value.is_of(layout[i].kind) {
            assert(!(same_key(record@[i as int].key, layout[i as int].key) && has_kind(
                record@[i as int].value@,
                layout[i as int].kind,
            )));
            return false;
        }
        i += 1;
    }
    true
}

impl Key {
    /// Whether this key and `other` address the same field.
    pub fn addresses(&self, other: &Key) -> (b: bool)
        ensures
            b == same_key(*self, *other),
    {
        match (self, other) {
            (Key::Label(x), Key::Label(y)) => x.eq(y),
            (Key::Position(i), Key::Position(j)) => *i == *j,
            _ => false,
        }
    }

    /// A copy of the key.
    pub fn duplicate(&self) -> (k: Key)
        ensures
            k == *self,
    {
        match self {
            Key::Label(label) => Key::Label(label.clone()),
            Key::Position(i) => Key::Position(*i),
        }
    }
}

impl Input {
    /// The layout of a record whose fields have the given wire kinds: field
    /// `i` of the schema under its key, with kind `i`. There is none where the
    /// number of kinds is not the number of fields.
    pub fn layout(&self, kinds: &Vec<Kind>) -> (r: Option<Vec<LayoutField>>)
        ensures
            r is Some <==> kinds.len() == self.fields.len(),
            match r {
                Some(layout) => {
                    &&& layout.len() == self.fields.len()
                    &&& forall|i: int|
                        0 <= i < layout.len() ==> (#[trigger] layout[i]).key == key_of(self.fields[i])
                    &&& kinds_of(layout@) == kinds@
                },
                None => true,
            },
    {
        if kinds.len() != self.fields.len() {
            return None;
        }
        let mut layout: Vec<LayoutField> = Vec::new();
        let mut i: usize = 0;
        while i < kinds.len()
            invariant
                i <= kinds.len() == self.fields.len(),
                layout.len() == i,
                forall|j: int| 0 <= j < i ==> (#[trigger] layout[j]).key == key_of(self.fields[j]),
                forall|j: int| 0 <= j < i ==> (#[trigger] layout[j]).kind == kinds[j],
            decreases kinds.len() - i,
        {
            layout.push(LayoutField { key: self.fields[i].key(), kind: kinds[i] });
            i += 1;
        }
        assert(kinds_of(layout@) =~= kinds@);
        Some(layout)
    }
}

/// An in-memory byte sink that takes at most `limit` bytes.
#[derive(Clone, Debug, PartialEq, Eq)]
pub struct Sink {
    pub bytes: Vec<u8>,
    pub limit: usize,
}

impl Sink {
    /// The sink holds no more than its limit.
    pub open spec fn wf(&self) -> bool {
        self.bytes.len() <= self.limit
    }

    /// The number of bytes the sink can still take.
    pub open spec fn room(&self) -> nat {
        (self.limit - self.bytes.len()) as nat
    }

    /// An empty sink that takes at most `limit` bytes.
    pub fn new(limit: usize) -> (s: Sink)
        ensures
            s.wf(),
            s.bytes@ == Seq::<u8>::empty(),
            s.limit == limit,
    {
        Sink { bytes: Vec::new(), limit }
    }

    /// Writes one value: all of its bytes, or none where they do not fit.
    pub fn write_value(&mut self, v: &Value, order: ByteOrder) -> (r: Result<(), CodecError>)
        requires
            old(self).wf(),
        ensures
            final(self).wf(),
            final(self).limit == old(self).limit,
            r == write_outcome(v@, old(self).room()),
            r is Ok ==> final(self).bytes@ == old(self).bytes@ + datum_bytes(v@, order),
            r is Err ==> final(self).bytes@ == old(self).bytes@,
    {
        let data = v.encode(order);
        let room: usize = self.limit - self.bytes.len();
        if data.len() > room {
            return Err(CodecError::SinkFull { needed: data.len(), room });
        }
        let mut i: usize = 0;
        while i < data.len()
            invariant
                i <= data.len(),
                self.limit == old(self).limit,
                old(self).bytes.len() + data.len() <= self.limit,
                self.bytes@ == old(self).bytes@ + data@.take(i as int),
            decreases data.len() - i,
        {
            self.bytes.push(data[i]);
            assert(self.bytes@ =~= old(self).bytes@ + data@.take(i + 1));
            i += 1;
        }
        assert(data@.take(i as int) =~= data@);
        Ok(())
    }
}

/// An in-memory byte source, read from `pos` on.
#[derive(Clone, Debug, PartialEq, Eq)]
pub struct Source {
    pub bytes: Vec<u8>,
    pub pos: usize,
}

impl Source {
    /// The position lies within the bytes.
    pub open spec fn wf(&self) -> bool {
        self.pos <= self.bytes.len()
    }

    /// The number of bytes not yet read.
    pub open spec fn available(&self) -> nat {
        (self.bytes.len() - self.pos) as nat
    }

    /// The bytes not yet read.
    pub open spec fn rest(&self) -> Seq<u8> {
        self.bytes@.skip(self.pos as int)
    }

    /// A source that reads `bytes` from the start.
    pub fn new(bytes: Vec<u8>) -> (s: Source)
        ensures
            s.wf(),
            s.bytes == bytes,
            s.pos == 0,
    {
        Source { bytes, pos: 0 }
    }

    /// Reads one value of the given kind: all of its bytes, or none where too
    /// few are left.
    pub fn read_value(&mut self, kind: Kind, order: ByteOrder) -> (r: Result<Value, CodecError>)
        requires
            old(self).wf(),
        ensures
            final(self).wf(),
            final(self).bytes == old(self).bytes,
            match r {
                Ok(v) => {
                    &&& kind_len(kind) <= old(self).available()
                    &&& v@ == datum_of(kind, old(self).rest().take(kind_len(kind) as int), order)
                    &&& has_kind(v@, kind)
                    &&& final(self).pos == old(self).pos + kind_len(kind)
                },
                Err(e) => {
                    &&& kind_len(kind) > old(self).available()
                    &&& e == read_failure(kind_len(kind), old(self).available())
                    &&& final(self).pos == old(self).pos
                },
            },
    {
        let needed = kind.len();
        let available: usize = self.bytes.len() - self.pos;
        if needed > available {
            return Err(CodecError::Truncated { needed, available });
        }
        let v = Value::decode(kind, &self.bytes, self.pos, order);
        assert(self.rest().take(needed as int) =~= self.bytes@.subrange(
            self.pos as int,
            self.pos + needed,
        ));
        self.pos = self.pos + needed;
        Ok(v)
    }
}

impl Sink {
    /// Writes the fields of a record in their order and stops at the first
    /// that does not fit. The fields before it are in the sink, none after it
    /// is tried, and the failure is the one of that field.
    pub fn write_record(&mut self, record: &Vec<Slot>, order: ByteOrder) -> (r: Result<(), CodecError>)
        requires
            old(self).wf(),
        ensures
            final(self).wf(),
            final(self).limit == old(self).limit,
            walked(old(self).bytes@, old(self).room(), final(self).bytes@, values_of(record@), order, r),
    {
        let ghost ds = values_of(record@);
        let ghost lens = datum_lens(ds);
        let ghost room = old(self).room();
        let mut i: usize = 0;
        assert(ds.take(0) =~= Seq::<Datum>::empty());
        assert(lens.take(0) =~= Seq::<nat>::empty());
        assert(self.bytes@ =~= old(self).bytes@ + record_bytes(ds.take(0), order));
        while i < record.len()
            invariant
                i <= record.len(),
                ds == values_of(record@),
                lens == datum_lens(ds),
                room == old(self).room(),
                old(self).wf(),
                self.wf(),
                self.limit == old(self).limit,
                total(lens.take(i as int)) <= room,
                self.room() == room - total(lens.take(i as int)),
                self.bytes@ == old(self).bytes@ + record_bytes(ds.take(i as int), order),
            decreases record.len() - i,
        {
            let ghost before = self.bytes@;
            let r = self.write_value(&record[i].value, order);
            proof {
                lemma_total_step(lens, i as int);
            }
            match r {
                Ok(()) => {
                    proof {
                        lemma_datum_bytes_len(ds[i as int], order);
                        assert(ds.take(i + 1).drop_last() =~= ds.take(i as int));
                        assert(self.bytes@ =~= old(self).bytes@ + record_bytes(ds.take(i + 1), order));
                    }
                },
                Err(e) => {
                    proof {
                        lemma_fitting_at(lens, room, i as int);
                    }
                    return Err(e);
                },
            }
            i += 1;
        }
        proof {
            assert(lens.take(i as int) =~= lens);
            assert(ds.take(i as int) =~= ds);
            lemma_fitting_all(lens, room);
        }
        Ok(())
    }
}

impl Sink {
    /// Writes a record of the given layout. A record that does not have the
    /// fields of the layout is refused and nothing is written; any other is
    /// written field by field in the order of the layout, up to the first
    /// field that does not fit.
    pub fn write_as(&mut self, layout: &Vec<LayoutField>, record: &Vec<Slot>, order: ByteOrder) -> (r:
        Result<(), CodecError>)
        requires
            old(self).wf(),
        ensures
            final(self).wf(),
            final(self).limit == old(self).limit,
            !conforms(record@, layout@) ==> r == Err::<(), CodecError>(CodecError::Mismatch)
                && final(self).bytes@ == old(self).bytes@,
            conforms(record@, layout@) ==> walked(
                old(self).bytes@,
                old(self).room(),
                final(self).bytes@,
                values_of(record@),
                order,
                r,
            ),
    {
        if !conforms_to(record, layout) {
            return Err(CodecError::Mismatch);
        }
        self.write_record(record, order)
    }
}

impl Source {
    /// Reads the fields of a layout in their order and stops at the first
    /// for which too few bytes are left. On success the record holds one slot
    /// per field, under the field's key; on failure no record is returned, the
    /// fields before the failing one are consumed, none after it is tried, and
    /// the failure is the one of that field.
    pub fn read_record(&mut self, layout: &Vec<LayoutField>, order: ByteOrder) -> (r: Result<
        Vec<Slot>,
        CodecError,
    >)
        requires
            old(self).wf(),
        ensures
            final(self).wf(),
            final(self).bytes == old(self).bytes,
            ({
                let ks = kinds_of(layout@);
                let lens = kind_lens(ks);
                let done = fitting(lens, old(self).available()) as int;
                &&& final(self).pos == old(self).pos + total(lens.take(done))
                &&& match r {
                    Ok(record) => {
                        &&& done == ks.len()
                        &&& record.len() == layout.len()
                        &&& forall|i: int|
                            0 <= i < layout.len() ==> (#[trigger] record[i]).key == layout[i].key
                        &&& values_of(record@) == decode_record(ks, old(self).rest(), order)
                    },
                    Err(e) => {
                        &&& done < ks.len()
                        &&& e == read_failure(
                            lens[done],
                            (old(self).available() - total(lens.take(done))) as nat,
                        )
                    },
                }
            }),
    {
        let ghost ks = kinds_of(layout@);
        let ghost lens = kind_lens(ks);
        let ghost room = old(self).available();
        let ghost data = old(self).rest();
        let mut record: Vec<Slot> = Vec::new();
        let mut i: usize = 0;
        assert(lens.take(0) =~= Seq::<nat>::empty());
        while i < layout.len()
            invariant
                i <= layout.len(),
                ks == kinds_of(layout@),
                lens == kind_lens(ks),
                room == old(self).available(),
                data == old(self).rest(),
                old(self).wf(),
                self.wf(),
                self.bytes == old(self).bytes,
                total(lens.take(i as int)) <= room,
                self.pos == old(self).pos + total(lens.take(i as int)),
                record.len() == i,
                forall|j: int| 0 <= j < i ==> (#[trigger] record[j]).key == layout[j].key,
                forall|j: int| 0 <= j < i ==> (#[trigger] record[j]).value@ == decode_record(ks, data, order)[j],
            decreases layout.len() - i,
        {
            let ghost rest = self.rest();
            let r = self.read_value(layout[i].kind, order);
            proof {
                lemma_total_step(lens, i as int);
            }
            match r {
                Ok(value) => {
                    proof {
                        assert(rest.take(lens[i as int] as int) =~= data.subrange(
                            total(lens.take(i as int)) as int,
                            total(lens.take(i + 1)) as int,
                        ));
                    }
                    record.push(Slot { key: layout[i].key.duplicate(), value });
                },
                Err(e) => {
                    proof {
                        lemma_fitting_at(lens, room, i as int);
                    }
                    return Err(e);
                },
            }
            i += 1;
        }
        proof {
            assert(lens.take(i as int) =~= lens);
            lemma_fitting_all(lens, room);
            assert(values_of(record@) =~= decode_record(ks, data, order));
        }
        Ok(record)
    }
}

} // verus!
