//! Option records: the variable part of a header, carried byte for byte.

use crate::wire::{overwrite, put_bytes};
use vstd::prelude::*;

verus! {

/// One option of a header, as the bytes it has on the wire.
#[derive(Clone, Debug)]
pub struct OptionRecord {
    pub bytes: Vec<u8>,
}

impl View for OptionRecord {
    type V = Seq<u8>;

    open spec fn view(&self) -> Seq<u8> {
        self.bytes@
    }
}

/// The records of a header, each as its bytes.
pub open spec fn views(records: Seq<OptionRecord>) -> Seq<Seq<u8>> {
    records.map_values(|record: OptionRecord| record@)
}

/// The bytes of all records, one after the other.
pub open spec fn encoded(records: Seq<Seq<u8>>) -> Seq<u8> {
    records.flatten()
}

/// The sizes of all records added up.
pub open spec fn total_len(records: Seq<Seq<u8>>) -> nat
    decreases records.len(),
{
    if records.len() == 0 {
        0
    } else {
        records.first().len() + total_len(records.drop_first())
    }
}

/// The number of bytes that the first record of a non-empty option area
/// takes. An option whose kind is 0 or 1 is one byte. Any other says its
/// own length in its second byte and is at least two bytes long. No record
/// reaches past the end of the area.
pub open spec fn first_record_len(area: Seq<u8>, kind_range: int) -> int {
    let declared = if area[0] as int % kind_range <= 1 {
        1
    } else if area.len() < 2 || area[1] < 2 {
        2
    } else {
        area[1] as int
    };
    if declared <= area.len() {
        declared
    } else {
        area.len() as int
    }
}

/// An option area cut into its records. `kind_range` is 32 where the kind
/// of an option is the lower five bits of its first byte, and 256 where it
/// is the whole byte.
pub open spec fn split(area: Seq<u8>, kind_range: int) -> Seq<Seq<u8>>
    decreases area.len(),
{
    if area.len() == 0 {
        Seq::empty()
    } else {
        let len = first_record_len(area, kind_range);
        seq![area.take(len)] + split(area.skip(len), kind_range)
    }
}

impl OptionRecord {
    /// A record that holds `bytes`.
    pub fn new(bytes: Vec<u8>) -> (record: OptionRecord)
        ensures
            record@ == bytes@,
    {
        OptionRecord { bytes }
    }

    /// The number of bytes the record has on the wire.
    pub fn size(&self) -> (size: usize)
        ensures
            size == self@.len(),
    {
        self.bytes.len()
    }

    /// A record with the same bytes.
    pub fn duplicate(&self) -> (record: OptionRecord)
        ensures
            record@ == self@,
    {
        let bytes = self.bytes.clone();
        assert(bytes@ =~= self.bytes@);
        OptionRecord { bytes }
    }
}

/// Encoded, the records take as many bytes as their sizes add up to.
pub proof fn lemma_encoded_len(records: Seq<Seq<u8>>)
    ensures
        encoded(records).len() == total_len(records),
    decreases records.len(),
{
    if records.len() > 0 {
        lemma_encoded_len(records.drop_first());
    }
}

/// The records before `count`, encoded, are the start of all of them
/// encoded, and one more record adds its own bytes.
pub proof fn lemma_encoded_prefix(records: Seq<Seq<u8>>, count: int)
    requires
        0 <= count <= records.len(),
    ensures
        encoded(records.take(count)).len() <= encoded(records).len(),
        encoded(records.take(count)) == encoded(records).take(
            encoded(records.take(count)).len() as int,
        ),
        count < records.len() ==> encoded(records.take(count + 1)) == encoded(
            records.take(count),
        ) + records[count],
    decreases records.len() - count,
{
    if count < records.len() {
        assert(records.take(count + 1) == records.take(count).push(records[count]));
        records.take(count).lemma_flatten_push(records[count]);
        lemma_encoded_prefix(records, count + 1);
        let shorter = encoded(records.take(count));
        let longer = encoded(records.take(count + 1));
        assert(shorter == longer.take(shorter.len() as int));
        assert(shorter == encoded(records).take(shorter.len() as int));
    } else {
        assert(records.take(count) == records);
    }
}

/// The size of all records together where that is at most `limit`, else
/// nothing.
pub fn total_size_within(records: &Vec<OptionRecord>, limit: usize) -> (total: Option<usize>)
    ensures
        total == if encoded(views(records@)).len() <= limit {
            Some(encoded(views(records@)).len() as usize)
        } else {
            None
        },
{
    let mut total: usize = 0;
    let mut index: usize = 0;
    assert(views(records@).take(0) == Seq::<Seq<u8>>::empty());
    while index < records.len()
        invariant
            index <= records@.len(),
            total <= limit,
            total == encoded(views(records@).take(index as int)).len(),
        decreases records@.len() - index,
    {
        let size = records[index].size();
        proof {
            lemma_encoded_prefix(views(records@), index as int);
            lemma_encoded_prefix(views(records@), index as int + 1);
        }
        if size > limit - total {
            return None;
        }
        total = total + size;
        index = index + 1;
    }
    assert(views(records@).take(index as int) == views(records@));
    Some(total)
}

/// Writes the records into `buffer` from `at` on, one after the other.
pub fn put_records(buffer: &mut [u8], at: usize, records: &Vec<OptionRecord>)
    requires
        at + encoded(views(records@)).len() <= old(buffer)@.len(),
    ensures
        final(buffer)@ == overwrite(old(buffer)@, at as int, encoded(views(records@))),
{
    let capacity: usize = buffer.len();
    let mut offset: usize = at;
    let mut index: usize = 0;
    assert(views(records@).take(0) == Seq::<Seq<u8>>::empty());
    assert(buffer@ == overwrite(old(buffer)@, at as int, Seq::<u8>::empty()));
    while index < records.len()
        invariant
            index <= records@.len(),
            buffer@.len() == old(buffer)@.len() == capacity,
            at + encoded(views(records@)).len() <= capacity,
            offset == at + encoded(views(records@).take(index as int)).len(),
            buffer@ == overwrite(
                old(buffer)@,
                at as int,
                encoded(views(records@).take(index as int)),
            ),
        decreases records@.len() - index,
    {
        let record = &records[index];
        proof {
            lemma_encoded_prefix(views(records@), index as int);
            lemma_encoded_prefix(views(records@), index as int + 1);
        }
        put_bytes(buffer, offset, record.bytes.as_slice());
        assert(buffer@ == overwrite(
            old(buffer)@,
            at as int,
            encoded(views(records@).take(index as int + 1)),
        ));
        offset = offset + record.size();
        index = index + 1;
    }
    assert(views(records@).take(index as int) == views(records@));
}

/// Copies of the records, in the same order.
pub fn duplicate_records(records: &Vec<OptionRecord>) -> (copies: Vec<OptionRecord>)
    ensures
        views(copies@) == views(records@),
{
    let mut copies: Vec<OptionRecord> = Vec::new();
    let mut index: usize = 0;
    while index < records.len()
        invariant
            index <= records@.len(),
            views(copies@) == views(records@).take(index as int),
        decreases records@.len() - index,
    {
        let ghost earlier = views(copies@);
        copies.push(records[index].duplicate());
        assert(views(copies@) == earlier.push(records@[index as int]@));
        assert(views(records@).take(index as int + 1) == views(records@).take(index as int).push(
            records@[index as int]@,
        ));
        index = index + 1;
    }
    assert(views(records@).take(index as int) == views(records@));
    copies
}

/// Put together again, the records of an option area are the area.
pub proof fn lemma_split_covers(area: Seq<u8>, kind_range: int)
    ensures
        encoded(split(area, kind_range)) == area,
    decreases area.len(),
{
    if area.len() == 0 {
        assert(encoded(split(area, kind_range)) == area);
    } else {
        let len = first_record_len(area, kind_range);
        lemma_split_covers(area.skip(len), kind_range);
        vstd::seq_lib::lemma_flatten_concat(
            seq![area.take(len)],
            split(area.skip(len), kind_range),
        );
        seq![area.take(len)].lemma_flatten_one_element();
        assert(area.take(len) + area.skip(len) == area);
    }
}

/// Cuts the option area `bytes[from..to]` into its records.
pub fn split_records(bytes: &[u8], from: usize, to: usize, kind_range: u16) -> (records: Vec<
    OptionRecord,
>)
    requires
        from <= to <= bytes@.len(),
        kind_range == 32 || kind_range == 256,
    ensures
        views(records@) == split(bytes@.subrange(from as int, to as int), kind_range as int),
{
    let mut records: Vec<OptionRecord> = Vec::new();
    let mut offset: usize = from;
    let ghost area = bytes@.subrange(from as int, to as int);
    assert(area.skip(0) == area);
    assert(views(records@) == Seq::<Seq<u8>>::empty());
    while offset < to
        invariant
            from <= offset <= to <= bytes@.len(),
            kind_range == 32 || kind_range == 256,
            area == bytes@.subrange(from as int, to as int),
            views(records@) + split(area.skip(offset - from), kind_range as int) == split(
                area,
                kind_range as int,
            ),
        decreases to - offset,
    {
        let ghost rest = area.skip(offset - from);
        let left: usize = to - offset;
        let kind: u16 = (bytes[offset] as u16) % kind_range;
        let mut len: usize = if kind <= 1 {
            1
        } else if left < 2 || bytes[offset + 1] < 2 {
            2
        } else {
            bytes[offset + 1] as usize
        };
        if len > left {
            len = left;
        }
        assert(rest[0] == bytes@[offset as int]);
        assert(left >= 2 ==> rest[1] == bytes@[offset + 1]);
        assert(len == first_record_len(rest, kind_range as int));
        let record = OptionRecord::new(
            vstd::slice::slice_to_vec(vstd::slice::slice_subrange(bytes, offset, offset + len)),
        );
        assert(record@ == rest.take(len as int));
        assert(rest.skip(len as int) == area.skip(offset + len - from));
        let ghost earlier = views(records@);
        records.push(record);
        assert(views(records@) == earlier + seq![rest.take(len as int)]);
        offset = offset + len;
    }
    assert(split(area.skip(offset - from), kind_range as int) == Seq::<Seq<u8>>::empty());
    records
}

} // verus!
