//! Text fields: UTF-8 decoding and the table of NUL-terminated strings.

use vstd::prelude::*;
use vstd::slice::slice_subrange;
use vstd::utf8::decode_utf8;
use vstd::utf8::valid_utf8;

verus! {

/// The byte that ends each entry of the string table.
pub const TERMINATOR: u8 = 0;

/// The text that a run of bytes stands for: its characters where the bytes
/// are valid UTF-8, and the empty text where they are not.
pub open spec fn text_of(bytes: Seq<u8>) -> Seq<char> {
    if valid_utf8(bytes) {
        decode_utf8(bytes)
    } else {
        Seq::empty()
    }
}

/// Decodes one text field. Bytes that are not valid UTF-8 give the empty
/// string.
pub fn decode_text(bytes: &[u8]) -> (text: String)
    ensures
        text@ == text_of(bytes@),
{
    match core::str::from_utf8(bytes) {
        Ok(s) => s.to_owned(),
        Err(_) => String::new(),
    }
}

/// The first entry of `bytes` ends at `k`: a terminator stands there and
/// none before it.
pub open spec fn entry_ends_at(bytes: Seq<u8>, k: int) -> bool {
    &&& 0 <= k < bytes.len()
    &&& bytes[k] == TERMINATOR
    &&& forall|i: int| 0 <= i < k ==> bytes[i] != TERMINATOR
}

/// Length of the first entry of `bytes`, where a terminator ends one.
pub open spec fn first_entry_len(bytes: Seq<u8>) -> int {
    choose|k: int| entry_ends_at(bytes, k)
}

/// The entries of a string table, in file order: each runs up to the next
/// terminator, which is not part of it. Bytes after the last terminator
/// belong to no entry.
pub open spec fn entries(bytes: Seq<u8>) -> Seq<Seq<u8>>
    decreases bytes.len(),
{
    let k = first_entry_len(bytes);
    if entry_ends_at(bytes, k) {
        seq![bytes.subrange(0, k)] + entries(bytes.skip(k + 1))
    } else {
        Seq::empty()
    }
}

/// The texts of a string table, in file order.
pub open spec fn string_table(bytes: Seq<u8>) -> Seq<Seq<char>> {
    entries(bytes).map_values(|entry: Seq<u8>| text_of(entry))
}

/// An entry that ends at `k` is the first entry, and the table goes on
/// behind its terminator.
pub proof fn lemma_entries_step(bytes: Seq<u8>, k: int)
    requires
        entry_ends_at(bytes, k),
    ensures
        entries(bytes) == seq![bytes.subrange(0, k)] + entries(bytes.skip(k + 1)),
        string_table(bytes) == seq![text_of(bytes.subrange(0, k))] + string_table(
            bytes.skip(k + 1),
        ),
{
    let chosen = first_entry_len(bytes);
    if chosen < k {
    } else if k < chosen {
    }
}

/// Bytes without a terminator hold no entry.
pub proof fn lemma_entries_none(bytes: Seq<u8>)
    requires
        forall|i: int| 0 <= i < bytes.len() ==> bytes[i] != TERMINATOR,
    ensures
        entries(bytes) == Seq::<Seq<u8>>::empty(),
        string_table(bytes) == Seq::<Seq<char>>::empty(),
{
    let chosen = first_entry_len(bytes);
    if entry_ends_at(bytes, chosen) {
    }
}

/// The bytes of a string table that holds the entries `list`: each entry
/// with a terminator behind it.
pub open spec fn joined(list: Seq<Seq<u8>>) -> Seq<u8>
    decreases list.len(),
{
    if list.len() == 0 {
        Seq::empty()
    } else {
        list[0] + seq![TERMINATOR] + joined(list.skip(1))
    }
}

/// No entry holds a terminator, and the entries, each with its terminator,
/// are the start of the bytes they were taken from; what follows them
/// holds no terminator.
pub proof fn lemma_entries_rejoin(bytes: Seq<u8>)
    ensures
        forall|j: int, i: int|
            0 <= j < entries(bytes).len() && 0 <= i < entries(bytes)[j].len() ==> (
            #[trigger] entries(bytes)[j][i]) != TERMINATOR,
        joined(entries(bytes)).len() <= bytes.len(),
        joined(entries(bytes)) == bytes.take(joined(entries(bytes)).len() as int),
        forall|i: int|
            joined(entries(bytes)).len() <= i < bytes.len() ==> #[trigger] bytes[i] != TERMINATOR,
    decreases bytes.len(),
{
    let k = first_entry_len(bytes);
    let list = entries(bytes);
    if entry_ends_at(bytes, k) {
        let rest = bytes.skip(k + 1);
        let first = bytes.subrange(0, k);
        lemma_entries_rejoin(rest);
        assert(list.skip(1) =~= entries(rest));
        assert(list[0] == first);
        let head = first + seq![TERMINATOR];
        assert(joined(list) == head + joined(entries(rest)));
        assert(head =~= bytes.take(k + 1));
        let n = joined(entries(rest)).len() as int;
        assert(head + rest.take(n) =~= bytes.take(k + 1 + n));
        assert forall|j: int, i: int| 0 <= j < list.len() && 0 <= i < list[j].len() implies (
        #[trigger] list[j][i]) != TERMINATOR by {
            if j > 0 {
                assert(list[j] == entries(rest)[j - 1]);
            }
        }
        assert forall|i: int| joined(list).len() <= i < bytes.len() implies #[trigger] bytes[i]
            != TERMINATOR by {
            assert(bytes[i] == rest[i - (k + 1)]);
        }
    } else {
        assert(joined(list) =~= bytes.take(0));
        assert forall|i: int| 0 <= i < bytes.len() implies #[trigger] bytes[i] != TERMINATOR by {
            if bytes[i] == TERMINATOR {
                lemma_first_terminator(bytes, i, i);
            }
        }
    }
}

/// Where a terminator stands at `at` and none in the positions from
/// `bound` up to it, the first entry ends somewhere.
proof fn lemma_first_terminator(bytes: Seq<u8>, at: int, bound: int)
    requires
        0 <= bound <= at < bytes.len(),
        bytes[at] == TERMINATOR,
        forall|i: int| bound <= i < at ==> bytes[i] != TERMINATOR,
    ensures
        entry_ends_at(bytes, first_entry_len(bytes)),
    decreases bound,
{
    if bound == 0 {
        assert(entry_ends_at(bytes, at));
    } else if bytes[bound - 1] == TERMINATOR {
        lemma_first_terminator(bytes, bound - 1, bound - 1);
    } else {
        lemma_first_terminator(bytes, at, bound - 1);
    }
}

/// Splits `bytes` at each terminator and decodes the entries in file order.
pub fn parse_string_table(bytes: &[u8]) -> (table: Vec<String>)
    ensures
        table.deep_view() == string_table(bytes@),
{
    let n = bytes.len();
    let mut table: Vec<String> = Vec::new();
    let mut start: usize = 0;
    let mut i: usize = 0;
    assert(bytes@.skip(0) =~= bytes@);
    while i < n
        invariant
            n == bytes.len(),
            start <= i <= n,
            forall|j: int| start <= j < i ==> bytes@[j] != TERMINATOR,
            string_table(bytes@) == table.deep_view() + string_table(bytes@.skip(start as int)),
        decreases n - i,
    {
        if bytes[i] == TERMINATOR {
            let entry = slice_subrange(bytes, start, i);
            let text = decode_text(entry);
            proof {
                let rest = bytes@.skip(start as int);
                lemma_entries_step(rest, i - start);
                assert(rest.subrange(0, i - start) =~= entry@);
                assert(rest.skip(i - start + 1) =~= bytes@.skip(i + 1));
            }
            table.push(text);
            start = i + 1;
        }
        i += 1;
    }
    proof {
        lemma_entries_none(bytes@.skip(start as int));
    }
    table
}

} // verus!
