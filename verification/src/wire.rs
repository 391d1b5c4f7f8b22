//! Length-prefixed byte fields, the building block of every frame.
//!
//! A field is its length as eight little-endian bytes, then its bytes. Fields
//! follow one another without separators.

use vstd::prelude::*;
use vstd::bytes::*;
use vstd::slice::*;

verus! {

/// The number of bytes that a length takes on the wire.
pub const LEN_BYTES: usize = 8;

/// The largest length that a prefix can hold.
pub open spec fn max_len() -> nat {
    u64::MAX as nat
}

/// A length as it stands on the wire.
pub open spec fn length_prefix(n: nat) -> Seq<u8> {
    spec_u64_to_le_bytes(n as u64)
}

/// One field on the wire.
pub open spec fn field(data: Seq<u8>) -> Seq<u8> {
    length_prefix(data.len()) + data
}

/// Fields one after another, in order.
pub open spec fn fields(items: Seq<Seq<u8>>) -> Seq<u8>
    decreases items.len(),
{
    if items.len() == 0 {
        Seq::empty()
    } else {
        field(items[0]) + fields(items.drop_first())
    }
}

/// Every item is short enough for its length to be written.
pub open spec fn all_fit(items: Seq<Seq<u8>>) -> bool {
    forall|i: int| 0 <= i < items.len() ==> (#[trigger] items[i]).len() <= max_len()
}

/// Reads a length from the front: the length and what follows it.
pub open spec fn read_len(bytes: Seq<u8>) -> Option<(nat, Seq<u8>)> {
    if bytes.len() < 8 {
        None
    } else {
        Some(
            (
                spec_u64_from_le_bytes(bytes.subrange(0, 8)) as nat,
                bytes.subrange(8, bytes.len() as int),
            ),
        )
    }
}

/// Reads a field from the front: its bytes and what follows it. `None` where
/// the prefix is cut short or announces more bytes than there are.
pub open spec fn read_field(bytes: Seq<u8>) -> Option<(Seq<u8>, Seq<u8>)> {
    match read_len(bytes) {
        None => None,
        Some((n, rest)) => if n > rest.len() {
            None
        } else {
            Some((rest.subrange(0, n as int), rest.subrange(n as int, rest.len() as int)))
        },
    }
}

/// Reads `count` fields from the front: the fields and what follows them.
pub open spec fn read_fields(bytes: Seq<u8>, count: nat) -> Option<(Seq<Seq<u8>>, Seq<u8>)>
    decreases count,
{
    if count == 0 {
        Some((Seq::empty(), bytes))
    } else {
        match read_field(bytes) {
            None => None,
            Some((head, rest)) => match read_fields(rest, (count - 1) as nat) {
                None => None,
                Some((tail, after)) => Some((seq![head] + tail, after)),
            },
        }
    }
}

/// The length that `read_len` finds, where it finds one.
pub open spec fn len_read(bytes: Seq<u8>) -> nat {
    let (n, _) = read_len(bytes).unwrap();
    n
}

/// What follows the length that `read_len` finds.
pub open spec fn after_len(bytes: Seq<u8>) -> Seq<u8> {
    let (_, rest) = read_len(bytes).unwrap();
    rest
}

/// The field that `read_field` finds, where it finds one.
pub open spec fn field_read(bytes: Seq<u8>) -> Seq<u8> {
    let (data, _) = read_field(bytes).unwrap();
    data
}

/// What follows the field that `read_field` finds.
pub open spec fn after_field(bytes: Seq<u8>) -> Seq<u8> {
    let (_, rest) = read_field(bytes).unwrap();
    rest
}

/// The fields that `read_fields` finds, where it finds them.
pub open spec fn fields_read(bytes: Seq<u8>, count: nat) -> Seq<Seq<u8>> {
    let (items, _) = read_fields(bytes, count).unwrap();
    items
}

/// What follows the fields that `read_fields` finds.
pub open spec fn after_fields(bytes: Seq<u8>, count: nat) -> Seq<u8> {
    let (_, rest) = read_fields(bytes, count).unwrap();
    rest
}

/// A written length is read back, and leaves what followed it.
pub proof fn lemma_read_len(n: nat, rest: Seq<u8>)
    requires
        n <= max_len(),
    ensures
        length_prefix(n).len() == 8,
        read_len(length_prefix(n) + rest) == Some((n, rest)),
{
    lemma_auto_spec_u64_to_from_le_bytes();
    let bytes = length_prefix(n) + rest;
    assert(bytes.subrange(0, 8) =~= length_prefix(n));
    assert(bytes.subrange(8, bytes.len() as int) =~= rest);
}

/// What was read as a length is what a writer would have written.
pub proof fn lemma_read_len_sound(bytes: Seq<u8>)
    requires
        read_len(bytes) is Some,
    ensures
        len_read(bytes) <= max_len(),
        bytes == length_prefix(len_read(bytes)) + after_len(bytes),
{
    lemma_auto_spec_u64_to_from_le_bytes();
    let head = bytes.subrange(0, 8);
    assert(spec_u64_to_le_bytes(spec_u64_from_le_bytes(head)) == head);
    assert(bytes =~= head + bytes.subrange(8, bytes.len() as int));
}

/// A written field is read back, and leaves what followed it.
pub proof fn lemma_read_field(data: Seq<u8>, rest: Seq<u8>)
    requires
        data.len() <= max_len(),
    ensures
        read_field(field(data) + rest) == Some((data, rest)),
{
    lemma_read_len(data.len(), data + rest);
    assert(field(data) + rest =~= length_prefix(data.len()) + (data + rest));
    assert((data + rest).subrange(0, data.len() as int) =~= data);
    assert((data + rest).subrange(data.len() as int, (data + rest).len() as int) =~= rest);
}

/// What was read as a field is what a writer would have written.
pub proof fn lemma_read_field_sound(bytes: Seq<u8>)
    requires
        read_field(bytes) is Some,
    ensures
        field_read(bytes).len() <= max_len(),
        bytes == field(field_read(bytes)) + after_field(bytes),
{
    lemma_read_len_sound(bytes);
    let (n, rest) = read_len(bytes)->0;
    let data = rest.subrange(0, n as int);
    let after = rest.subrange(n as int, rest.len() as int);
    assert(rest =~= data + after);
    assert(bytes =~= field(data) + after);
}

/// Writing one more field at the end.
pub proof fn lemma_fields_push(items: Seq<Seq<u8>>, last: Seq<u8>)
    ensures
        fields(items.push(last)) == fields(items) + field(last),
    decreases items.len(),
{
    if items.len() == 0 {
        assert(items.push(last).drop_first() =~= Seq::<Seq<u8>>::empty());
        assert(fields(items.push(last)) =~= field(last) + fields(Seq::empty()));
        assert(fields(items.push(last)) =~= fields(items) + field(last));
    } else {
        lemma_fields_push(items.drop_first(), last);
        assert(items.push(last).drop_first() =~= items.drop_first().push(last));
        assert(fields(items.push(last)) =~= fields(items) + field(last));
    }
}

/// Written fields are read back, and leave what followed them.
pub proof fn lemma_read_fields(items: Seq<Seq<u8>>, rest: Seq<u8>)
    requires
        all_fit(items),
    ensures
        read_fields(fields(items) + rest, items.len()) == Some((items, rest)),
    decreases items.len(),
{
    if items.len() == 0 {
        assert(fields(items) + rest =~= rest);
        assert(items =~= Seq::<Seq<u8>>::empty());
    } else {
        let tail = items.drop_first();
        assert(all_fit(tail)) by {
            assert forall|i: int| 0 <= i < tail.len() implies (#[trigger] tail[i]).len()
                <= max_len() by {
                assert(tail[i] == items[i + 1]);
            }
        }
        lemma_read_field(items[0], fields(tail) + rest);
        assert(fields(items) + rest =~= field(items[0]) + (fields(tail) + rest));
        lemma_read_fields(tail, rest);
        assert(seq![items[0]] + tail =~= items);
    }
}

/// What was read as fields is what a writer would have written.
pub proof fn lemma_read_fields_sound(bytes: Seq<u8>, count: nat)
    requires
        read_fields(bytes, count) is Some,
    ensures
        fields_read(bytes, count).len() == count,
        all_fit(fields_read(bytes, count)),
        bytes == fields(fields_read(bytes, count)) + after_fields(bytes, count),
    decreases count,
{
    if count == 0 {
        assert(bytes =~= fields(Seq::empty()) + bytes);
    } else {
        lemma_read_field_sound(bytes);
        let (head, rest) = read_field(bytes)->0;
        lemma_read_fields_sound(rest, (count - 1) as nat);
        let (tail, after) = read_fields(rest, (count - 1) as nat)->0;
        let items = seq![head] + tail;
        assert(items.drop_first() =~= tail);
        assert(items[0] == head);
        assert(bytes =~= fields(items) + after);
        assert(all_fit(items)) by {
            assert forall|i: int| 0 <= i < items.len() implies (#[trigger] items[i]).len()
                <= max_len() by {
                if i > 0 {
                    assert(items[i] == tail[i - 1]);
                }
            }
        }
    }
}

/// The byte strings of a list, one for one.
pub open spec fn views(items: Seq<Vec<u8>>) -> Seq<Seq<u8>> {
    Seq::new(items.len(), |i: int| items[i]@)
}

/// Whether two byte strings are the same.
pub fn same_bytes(a: &[u8], b: &[u8]) -> (r: bool)
    ensures
        r == (a@ == b@),
{
    if a.len() != b.len() {
        return false;
    }
    let n = a.len();
    let mut i: usize = 0;
    while i < n
        invariant
            n == a@.len(),
            n == b@.len(),
            i <= n,
            forall|k: int| 0 <= k < i ==> a@[k] == b@[k],
        decreases n - i,
    {
        if a[i] != b[i] {
            return false;
        }
        i += 1;
    }
    assert(a@ =~= b@);
    true
}

/// Appends `data` to `out`.
pub(crate) fn put_bytes(out: &mut Vec<u8>, data: &[u8])
    ensures
        final(out)@ == old(out)@ + data@,
{
    let n = data.len();
    let mut i: usize = 0;
    while i < n
        invariant
            n == data@.len(),
            i <= n,
            out@ == old(out)@ + data@.subrange(0, i as int),
        decreases n - i,
    {
        out.push(data[i]);
        assert(data@.subrange(0, i + 1) =~= data@.subrange(0, i as int).push(data@[i as int]));
        i += 1;
    }
    assert(data@.subrange(0, n as int) =~= data@);
}

/// Appends a length to `out`.
pub(crate) fn put_len(out: &mut Vec<u8>, n: usize)
    ensures
        final(out)@ == old(out)@ + length_prefix(n as nat),
{
    let mut prefix = u64_to_le_bytes(n as u64);
    out.append(&mut prefix);
}

/// Appends `data` to `out` as one field.
pub(crate) fn put_field(out: &mut Vec<u8>, data: &[u8])
    ensures
        final(out)@ == old(out)@ + field(data@),
{
    put_len(out, data.len());
    put_bytes(out, data);
    assert(final(out)@ =~= old(out)@ + field(data@));
}

/// Reads the length that starts at `pos`: the length and where it ends.
pub(crate) fn take_len(bytes: &[u8], pos: usize) -> (r: Option<(u64, usize)>)
    requires
        pos <= bytes@.len(),
    ensures
        match r {
            None => read_len(bytes@.subrange(pos as int, bytes@.len() as int)) is None,
            Some((n, next)) => {
                &&& next == pos + 8
                &&& next <= bytes@.len()
                &&& read_len(bytes@.subrange(pos as int, bytes@.len() as int)) == Some(
                    (n as nat, bytes@.subrange(next as int, bytes@.len() as int)),
                )
            },
        },
{
    let ghost tail = bytes@.subrange(pos as int, bytes@.len() as int);
    if bytes.len() - pos < LEN_BYTES {
        return None;
    }
    let n = u64_from_le_bytes(slice_subrange(bytes, pos, pos + LEN_BYTES));
    proof {
        assert(tail.subrange(0, 8) =~= bytes@.subrange(pos as int, pos + 8));
        assert(tail.subrange(8, tail.len() as int) =~= bytes@.subrange(
            pos + 8,
            bytes@.len() as int,
        ));
    }
    Some((n, pos + LEN_BYTES))
}

/// Reads the field that starts at `pos`: where its bytes start and end.
pub(crate) fn take_field(bytes: &[u8], pos: usize) -> (r: Option<(usize, usize)>)
    requires
        pos <= bytes@.len(),
    ensures
        match r {
            None => read_field(bytes@.subrange(pos as int, bytes@.len() as int)) is None,
            Some((start, end)) => {
                &&& pos <= start <= end <= bytes@.len()
                &&& read_field(bytes@.subrange(pos as int, bytes@.len() as int)) == Some(
                    (
                        bytes@.subrange(start as int, end as int),
                        bytes@.subrange(end as int, bytes@.len() as int),
                    ),
                )
            },
        },
{
    match take_len(bytes, pos) {
        None => None,
        Some((n, start)) => {
            if n > (bytes.len() - start) as u64 {
                None
            } else {
                let end = start + n as usize;
                proof {
                    let rest = bytes@.subrange(start as int, bytes@.len() as int);
                    assert(rest.subrange(0, n as int) =~= bytes@.subrange(
                        start as int,
                        end as int,
                    ));
                    assert(rest.subrange(n as int, rest.len() as int) =~= bytes@.subrange(
                        end as int,
                        bytes@.len() as int,
                    ));
                }
                Some((start, end))
            }
        },
    }
}

} // verus!
