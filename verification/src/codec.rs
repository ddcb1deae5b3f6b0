//! The binary layout a player's learned state is persisted in: the side
//! marker, the populated value-table entries as an unordered collection of
//! (nine-cell key, value) pairs, both initial rates, and the iteration
//! counter, all little-endian. Values and rates are fixed-point integers
//! bounded by `SCALE`; a file of an incompatible shape or with values
//! encoded any other way fails to decode rather than being misread.

use vstd::prelude::*;

verus! {

use vstd::bytes::{
    spec_u32_from_le_bytes,
    spec_u32_to_le_bytes,
    spec_u64_from_le_bytes,
    spec_u64_to_le_bytes,
};

use crate::agents::players::PlayerError;
use crate::game::board::Piece;
use crate::states;
use crate::states::{SCALE, STATE_COUNT};
use crate::values::{ValueTable, wf_table};

/// Everything a saved player consists of.
pub struct SaveData {
    /// Which piece the player uses.
    pub piece: Piece,
    /// The value table, one slot per compact state.
    pub table: Seq<Option<u64>>,
    /// Learning rate before annealing.
    pub learning: u64,
    /// Exploration rate before annealing.
    pub exploration: u64,
    /// Number of games played.
    pub iteration: u32,
}

/// A table with every state unseen.
pub open spec fn empty_table() -> Seq<Option<u64>> {
    Seq::new(STATE_COUNT as nat, |j: int| None)
}

/// The nine key bytes of a compact state: its cell tags in cell order.
pub open spec fn key_bytes(s: Seq<Piece>) -> Seq<u8> {
    Seq::new(9, |j: int| states::cell_tag(s[j]) as u8)
}

/// One persisted table entry: the state's key bytes, then its value.
pub open spec fn entry_bytes(i: int, v: u64) -> Seq<u8> {
    key_bytes(states::state_of_index(i)) + spec_u64_to_le_bytes(v)
}

/// The persisted entries of every populated slot at index `k` or above, in
/// index order.
pub open spec fn entries_from(t: Seq<Option<u64>>, k: int) -> Seq<u8>
    decreases STATE_COUNT - k,
{
    if k < 0 || k >= STATE_COUNT {
        Seq::empty()
    } else if t[k] is Some {
        entry_bytes(k, t[k]->0) + entries_from(t, k + 1)
    } else {
        entries_from(t, k + 1)
    }
}

/// How many slots at index `k` or above are populated.
pub open spec fn count_from(t: Seq<Option<u64>>, k: int) -> int
    decreases STATE_COUNT - k,
{
    if k < 0 || k >= STATE_COUNT {
        0
    } else if t[k] is Some {
        1 + count_from(t, k + 1)
    } else {
        count_from(t, k + 1)
    }
}

/// The persisted entries of populated slots below `n`, in index order.
pub open spec fn entries_upto(t: Seq<Option<u64>>, n: int) -> Seq<u8>
    decreases n,
{
    if n <= 0 || n > STATE_COUNT {
        Seq::empty()
    } else if t[n - 1] is Some {
        entries_upto(t, n - 1) + entry_bytes(n - 1, t[n - 1]->0)
    } else {
        entries_upto(t, n - 1)
    }
}

/// How many slots below `n` are populated.
pub open spec fn count_upto(t: Seq<Option<u64>>, n: int) -> int
    decreases n,
{
    if n <= 0 || n > STATE_COUNT {
        0
    } else if t[n - 1] is Some {
        count_upto(t, n - 1) + 1
    } else {
        count_upto(t, n - 1)
    }
}

/// The complete save image of a player.
pub open spec fn encode_save(d: SaveData) -> Seq<u8> {
    seq![states::cell_tag(d.piece) as u8] + spec_u32_to_le_bytes(count_from(d.table, 0) as u32)
        + entries_from(d.table, 0) + spec_u64_to_le_bytes(d.learning) + spec_u64_to_le_bytes(
        d.exploration,
    ) + spec_u32_to_le_bytes(d.iteration)
}

/// The compact state held in nine key bytes, if every byte is a cell tag.
pub open spec fn decode_key(b: Seq<u8>) -> Option<Seq<Piece>> {
    if forall|j: int| 0 <= j < 9 ==> #[trigger] b[j] < 3 {
        Some(Seq::new(9, |j: int| states::piece_of_tag(b[j] as int)))
    } else {
        None
    }
}

/// An acceptable entry: a value within scale, and for a finished game the
/// exact outcome value for the player owning side `me`.
pub open spec fn valid_entry(s: Seq<Piece>, v: u64, me: Piece) -> bool {
    v <= SCALE && (states::terminal(s) ==> v == states::default_value(s, me))
}

/// Decode `count` entries from the front of `b` into the table `acc`,
/// later entries overriding earlier ones; reject a malformed key or an
/// unacceptable value.
pub open spec fn decode_entries(
    b: Seq<u8>,
    count: int,
    acc: Seq<Option<u64>>,
    me: Piece,
) -> Option<Seq<Option<u64>>>
    decreases count,
{
    if count <= 0 {
        Some(acc)
    } else {
        match decode_key(b.subrange(0, 9)) {
            None => None,
            Some(s) => {
                let v = spec_u64_from_le_bytes(b.subrange(9, 17));
                if valid_entry(s, v, me) {
                    decode_entries(
                        b.skip(17),
                        count - 1,
                        acc.update(states::state_index(s), Some(v)),
                        me,
                    )
                } else {
                    None
                }
            },
        }
    }
}

/// The saved player held in `b`, or nothing when `b` is not a well-formed
/// save image: wrong length, an unknown side, rates beyond scale, or
/// entries that fail `decode_entries`.
pub open spec fn decode_save(b: Seq<u8>) -> Option<SaveData> {
    if b.len() < 25 {
        None
    } else if b[0] != 1 && b[0] != 2 {
        None
    } else {
        let me = states::piece_of_tag(b[0] as int);
        let count = spec_u32_from_le_bytes(b.subrange(1, 5)) as int;
        if b.len() != 25 + 17 * count {
            None
        } else {
            let learning = spec_u64_from_le_bytes(b.subrange(5 + 17 * count, 13 + 17 * count));
            let exploration = spec_u64_from_le_bytes(
                b.subrange(13 + 17 * count, 21 + 17 * count),
            );
            let iteration = spec_u32_from_le_bytes(b.subrange(21 + 17 * count, 25 + 17 * count));
            if learning <= SCALE && exploration <= SCALE {
                match decode_entries(b.subrange(5, 5 + 17 * count), count, empty_table(), me) {
                    None => None,
                    Some(t) => Some(
                        SaveData { piece: me, table: t, learning, exploration, iteration },
                    ),
                }
            } else {
                None
            }
        }
    }
}

/// Entry counts lie between zero and the number of remaining slots, and
/// the entry bytes take exactly seventeen bytes per counted entry.
pub proof fn lemma_entries_from_len(t: Seq<Option<u64>>, k: int)
    ensures
        0 <= count_from(t, k) <= STATE_COUNT,
        0 <= k <= STATE_COUNT ==> count_from(t, k) <= STATE_COUNT - k,
        entries_from(t, k).len() == 17 * count_from(t, k),
    decreases STATE_COUNT - k,
{
    vstd::bytes::lemma_auto_spec_u64_to_from_le_bytes();
    if 0 <= k < STATE_COUNT {
        lemma_entries_from_len(t, k + 1);
    }
}

/// The table with the populated slots of `t` at index `k` or above laid
/// over `acc`.
pub open spec fn overlay_from(acc: Seq<Option<u64>>, t: Seq<Option<u64>>, k: int) -> Seq<
    Option<u64>,
> {
    Seq::new(
        STATE_COUNT as nat,
        |j: int|
            if j >= k && t[j] is Some {
                t[j]
            } else {
                acc[j]
            },
    )
}

/// Decoding the entries encoded from index `k` on rebuilds exactly the
/// populated slots of `t` from `k` on.
proof fn lemma_entries_roundtrip(t: Seq<Option<u64>>, acc: Seq<Option<u64>>, k: int, me: Piece)
    requires
        wf_table(t, me),
        acc.len() == STATE_COUNT,
        0 <= k <= STATE_COUNT,
    ensures
        decode_entries(entries_from(t, k), count_from(t, k), acc, me) == Some(
            overlay_from(acc, t, k),
        ),
    decreases STATE_COUNT - k,
{
    vstd::bytes::lemma_auto_spec_u64_to_from_le_bytes();
    lemma_entries_from_len(t, k);
    if k == STATE_COUNT {
        assert(overlay_from(acc, t, k) =~= acc);
    } else if t[k] is None {
        lemma_entries_roundtrip(t, acc, k + 1, me);
        assert(overlay_from(acc, t, k) =~= overlay_from(acc, t, k + 1));
    } else {
        let v = t[k]->0;
        let s = states::state_of_index(k);
        let b = entries_from(t, k);
        let count = count_from(t, k);
        assert(b == entry_bytes(k, v) + entries_from(t, k + 1));
        assert(b.subrange(0, 9) =~= key_bytes(s));
        assert(forall|j: int| 0 <= j < 9 ==> #[trigger] key_bytes(s)[j] < 3) by {
            assert(forall|p: Piece| 0 <= #[trigger] states::cell_tag(p) <= 2);
        }
        assert(decode_key(key_bytes(s)) is Some);
        assert(decode_key(key_bytes(s))->0 =~= s) by {
            assert(forall|p: Piece| #[trigger] states::piece_of_tag(states::cell_tag(p)) == p);
        }
        assert(b.subrange(9, 17) =~= spec_u64_to_le_bytes(v));
        assert(spec_u64_from_le_bytes(b.subrange(9, 17)) == v);
        states::lemma_index_of_state_of_index(k);
        assert(states::state_index(s) == k);
        assert(valid_entry(s, v, me));
        let acc2 = acc.update(k, Some(v));
        assert(b.skip(17) =~= entries_from(t, k + 1));
        lemma_entries_roundtrip(t, acc2, k + 1, me);
        assert(decode_entries(b, count, acc, me) == decode_entries(
            b.skip(17),
            count - 1,
            acc2,
            me,
        ));
        assert(overlay_from(acc2, t, k + 1) =~= overlay_from(acc, t, k));
    }
}

/// Persistence round trip: a well-formed player state decodes from its own
/// save image unchanged, side, table contents, rates and iteration alike.
pub proof fn lemma_save_roundtrip(d: SaveData)
    requires
        d.piece != Piece::Empty,
        wf_table(d.table, d.piece),
        d.learning <= SCALE,
        d.exploration <= SCALE,
    ensures
        decode_save(encode_save(d)) == Some(d),
{
    vstd::bytes::lemma_auto_spec_u64_to_from_le_bytes();
    vstd::bytes::lemma_auto_spec_u32_to_from_le_bytes();
    lemma_entries_from_len(d.table, 0);
    let t = d.table;
    let count = count_from(t, 0);
    let b = encode_save(d);
    assert(b.len() == 25 + 17 * count);
    assert(b[0] == states::cell_tag(d.piece) as u8);
    assert(b[0] == 1 || b[0] == 2);
    assert(states::piece_of_tag(b[0] as int) == d.piece);
    assert(b.subrange(1, 5) =~= spec_u32_to_le_bytes(count as u32));
    assert(spec_u32_from_le_bytes(b.subrange(1, 5)) == count as u32);
    assert(b.subrange(5, 5 + 17 * count) =~= entries_from(t, 0));
    assert(b.subrange(5 + 17 * count, 13 + 17 * count) =~= spec_u64_to_le_bytes(d.learning));
    assert(b.subrange(13 + 17 * count, 21 + 17 * count) =~= spec_u64_to_le_bytes(d.exploration));
    assert(b.subrange(21 + 17 * count, 25 + 17 * count) =~= spec_u32_to_le_bytes(d.iteration));
    lemma_entries_roundtrip(t, empty_table(), 0, d.piece);
    assert(overlay_from(empty_table(), t, 0) =~= t);
    assert(decode_save(b)->0 == d);
}

/// The prefix built left to right and the remaining suffix together form
/// the whole entry image, in bytes and in count.
pub proof fn lemma_entries_split(t: Seq<Option<u64>>, n: int)
    requires
        0 <= n <= STATE_COUNT,
    ensures
        entries_upto(t, n) + entries_from(t, n) == entries_from(t, 0),
        count_upto(t, n) + count_from(t, n) == count_from(t, 0),
    decreases n,
{
    if n == 0 {
        assert(entries_upto(t, 0) + entries_from(t, 0) =~= entries_from(t, 0));
    } else {
        lemma_entries_split(t, n - 1);
        if t[n - 1] is Some {
            assert((entries_upto(t, n - 1) + entry_bytes(n - 1, t[n - 1]->0)) + entries_from(t, n)
                =~= entries_upto(t, n - 1) + (entry_bytes(n - 1, t[n - 1]->0) + entries_from(
                t,
                n,
            )));
        }
    }
}

/// Serialize a player's savable state into its save image.
pub fn encode_player_bytes(
    piece: Piece,
    table: &ValueTable,
    learning: u64,
    exploration: u64,
    iteration: u32,
) -> (out: Vec<u8>)
    requires
        table@.len() == STATE_COUNT,
    ensures
        out@ == encode_save(
            SaveData { piece, table: table@, learning, exploration, iteration },
        ),
{
    proof {
        lemma_entries_from_len(table@, 0);
        lemma_entries_split(table@, STATE_COUNT as int);
    }
    let mut count: u32 = 0;
    let mut i: usize = 0;
    while i < STATE_COUNT
        invariant
            table@.len() == STATE_COUNT,
            i <= STATE_COUNT,
            count as int == count_upto(table@, i as int),
            count <= i,
        decreases STATE_COUNT - i,
    {
        if table.slots[i].is_some() {
            count = count + 1;
        }
        i += 1;
    }
    let mut out: Vec<u8> = Vec::new();
    out.push(states::tag_of(piece));
    let mut count_bytes = vstd::bytes::u32_to_le_bytes(count);
    out.append(&mut count_bytes);
    proof {
        assert(out@ =~= seq![states::cell_tag(piece) as u8] + spec_u32_to_le_bytes(
            count_from(table@, 0) as u32,
        ));
    }
    let ghost header = out@;
    let mut i: usize = 0;
    while i < STATE_COUNT
        invariant
            table@.len() == STATE_COUNT,
            i <= STATE_COUNT,
            out@ == header + entries_upto(table@, i as int),
        decreases STATE_COUNT - i,
    {
        let ghost pre = out@;
        match table.slots[i] {
            Some(v) => {
                let key = states::decode_state(i);
                let mut j: usize = 0;
                while j < 9
                    invariant
                        j <= 9,
                        key@ == states::state_of_index(i as int),
                        out@ == pre + key_bytes(key@).subrange(0, j as int),
                    decreases 9 - j,
                {
                    out.push(states::tag_of(key[j]));
                    proof {
                        assert(out@ =~= pre + key_bytes(key@).subrange(0, j as int + 1));
                    }
                    j += 1;
                }
                let mut value_bytes = vstd::bytes::u64_to_le_bytes(v);
                out.append(&mut value_bytes);
                proof {
                    assert(key_bytes(key@).subrange(0, 9) =~= key_bytes(key@));
                    assert(out@ =~= pre + entry_bytes(i as int, v));
                    assert(out@ =~= header + entries_upto(table@, i as int + 1));
                }
            },
            None => {
                proof {
                    assert(entries_upto(table@, i as int + 1) == entries_upto(table@, i as int));
                }
            },
        }
        i += 1;
    }
    proof {
        assert(out@ == header + entries_from(table@, 0));
    }
    let mut learning_bytes = vstd::bytes::u64_to_le_bytes(learning);
    out.append(&mut learning_bytes);
    let mut exploration_bytes = vstd::bytes::u64_to_le_bytes(exploration);
    out.append(&mut exploration_bytes);
    let mut iteration_bytes = vstd::bytes::u32_to_le_bytes(iteration);
    out.append(&mut iteration_bytes);
    proof {
        assert(out@ =~= encode_save(
            SaveData { piece, table: table@, learning, exploration, iteration },
        ));
    }
    out
}

/// Deserialize a save image back into a player's savable state; anything
/// that is not a well-formed image is rejected as unreadable.
pub fn decode_player_bytes(bytes: &[u8]) -> (r: Result<
    (Piece, ValueTable, u64, u64, u32),
    PlayerError,
>)
    ensures
        match r {
            Ok(d) => {
                &&& decode_save(bytes@) == Some(
                    SaveData {
                        piece: d.0,
                        table: d.1@,
                        learning: d.2,
                        exploration: d.3,
                        iteration: d.4,
                    },
                )
                &&& wf_table(d.1@, d.0)
                &&& d.0 != Piece::Empty
                &&& d.2 <= SCALE
                &&& d.3 <= SCALE
            },
            Err(e) => e == PlayerError::UnableToRead && decode_save(bytes@) is None,
        },
{
    let n = bytes.len();
    if n < 25 {
        return Err(PlayerError::UnableToRead);
    }
    let tag = *vstd::slice::slice_index_get(bytes, 0);
    let piece = if tag == 1 {
        Piece::X
    } else if tag == 2 {
        Piece::O
    } else {
        return Err(PlayerError::UnableToRead);
    };
    let count32 = vstd::bytes::u32_from_le_bytes(vstd::slice::slice_subrange(bytes, 1, 5));
    let ghost count_spec = spec_u32_from_le_bytes(bytes@.subrange(1, 5)) as int;
    if (n as u64) != 25u64 + 17u64 * (count32 as u64) {
        return Err(PlayerError::UnableToRead);
    }
    let count = count32 as usize;
    proof {
        assert(bytes@.len() == 25 + 17 * count_spec);
        assert(count as int == count_spec);
    }
    let ghost region = bytes@.subrange(5, 5 + 17 * count_spec);
    let mut table = ValueTable::new();
    proof {
        assert(table@ =~= empty_table());
    }
    let mut e: usize = 0;
    while e < count
        invariant
            n == bytes@.len(),
            bytes@.len() == 25 + 17 * count,
            count == count_spec,
            count_spec == spec_u32_from_le_bytes(bytes@.subrange(1, 5)) as int,
            (bytes@[0] == 1 || bytes@[0] == 2) && piece == states::piece_of_tag(bytes@[0] as int),
            region == bytes@.subrange(5, 5 + 17 * count_spec),
            e <= count,
            piece != Piece::Empty,
            table@.len() == STATE_COUNT,
            wf_table(table@, piece),
            decode_entries(region, count as int, empty_table(), piece) == decode_entries(
                bytes@.subrange(5 + 17 * e as int, 5 + 17 * count_spec),
                count - e,
                table@,
                piece,
            ),
        decreases count - e,
    {
        let off: usize = 5 + 17 * e;
        let ghost rest = bytes@.subrange(5 + 17 * e as int, 5 + 17 * count_spec);
        let ghost rest9 = bytes@.subrange(5 + 17 * e as int, 5 + 17 * (e as int) + 9);
        let mut key = [Piece::Empty; 9];
        let mut j: usize = 0;
        while j < 9
            invariant
                off == 5 + 17 * e,
                e < count,
                count == count_spec,
                n == bytes@.len(),
                bytes@.len() == 25 + 17 * count,
                count_spec == spec_u32_from_le_bytes(bytes@.subrange(1, 5)) as int,
                (bytes@[0] == 1 || bytes@[0] == 2) && piece == states::piece_of_tag(
                    bytes@[0] as int,
                ),
                rest == bytes@.subrange(5 + 17 * e as int, 5 + 17 * count_spec),
                rest9 == bytes@.subrange(5 + 17 * e as int, 5 + 17 * (e as int) + 9),
                region == bytes@.subrange(5, 5 + 17 * count_spec),
                decode_entries(region, count as int, empty_table(), piece) == decode_entries(
                    rest,
                    count - e,
                    table@,
                    piece,
                ),
                j <= 9,
                key@.len() == 9,
                forall|q: int|
                    0 <= q < j ==> (#[trigger] rest9[q]) < 3 && key@[q] == states::piece_of_tag(
                        rest9[q] as int,
                    ),
            decreases 9 - j,
        {
            let b = *vstd::slice::slice_index_get(bytes, off + j);
            proof {
                assert(rest9[j as int] == b);
            }
            if b >= 3 {
                proof {
                    assert(rest.subrange(0, 9) =~= rest9);
                    assert(decode_key(rest.subrange(0, 9)) is None);
                    assert(decode_entries(rest, count - e, table@, piece) is None);
                    assert(decode_entries(region, count as int, empty_table(), piece) is None);
                    assert(decode_save(bytes@) is None);
                }
                return Err(PlayerError::UnableToRead);
            }
            key[j] = states::piece_of(b);
            j += 1;
        }
        proof {
            assert(rest.subrange(0, 9) =~= rest9);
            assert(decode_key(rest9) is Some);
            assert(decode_key(rest9)->0 =~= key@);
        }
        let v = vstd::bytes::u64_from_le_bytes(
            vstd::slice::slice_subrange(bytes, off + 9, off + 17),
        );
        proof {
            assert(bytes@.subrange(off + 9, off + 17) =~= rest.subrange(9, 17));
        }
        if v > SCALE {
            proof {
                assert(decode_entries(rest, count - e, table@, piece) is None);
                assert(decode_save(bytes@) is None);
            }
            return Err(PlayerError::UnableToRead);
        }
        let winner_found = match states::winner_of(&key) {
            Some(_) => true,
            None => false,
        };
        if winner_found || states::full_of(&key) {
            let d = states::default_of(&key, piece);
            if v != d {
                proof {
                    assert(decode_entries(rest, count - e, table@, piece) is None);
                    assert(decode_save(bytes@) is None);
                }
                return Err(PlayerError::UnableToRead);
            }
        }
        proof {
            assert(valid_entry(key@, v, piece));
        }
        let idx = states::encode_state(&key);
        let ghost pre_table = table@;
        table.slots.set(idx, Some(v));
        proof {
            states::lemma_state_index_roundtrip(key@);
            assert(table@ == pre_table.update(states::state_index(key@), Some(v)));
            assert forall|q: int| 0 <= q < STATE_COUNT && table@[q] is Some implies ((
            #[trigger] table@[q])->0 <= SCALE && (states::terminal(states::state_of_index(q))
                ==> table@[q]->0 == states::default_value(states::state_of_index(q), piece))) by {
                if q != idx as int {
                    assert(table@[q] == pre_table[q]);
                }
            }
            assert(rest.skip(17) =~= bytes@.subrange(5 + 17 * (e as int) + 17, 5 + 17
                * count_spec));
            assert(v == spec_u64_from_le_bytes(rest.subrange(9, 17)));
            assert(decode_entries(rest, count - e, pre_table, piece) == decode_entries(
                rest.skip(17),
                count - e - 1,
                pre_table.update(states::state_index(key@), Some(v)),
                piece,
            ));
            assert(decode_entries(region, count as int, empty_table(), piece) == decode_entries(
                rest.skip(17),
                count - e - 1,
                table@,
                piece,
            ));
        }
        e += 1;
    }
    proof {
        assert(bytes@.subrange(5 + 17 * count_spec, 5 + 17 * count_spec).len() == 0);
        assert(decode_entries(region, count as int, empty_table(), piece) == Some(table@));
    }
    let off: usize = 5 + 17 * count;
    let learning = vstd::bytes::u64_from_le_bytes(vstd::slice::slice_subrange(bytes, off, off + 8));
    if learning > SCALE {
        return Err(PlayerError::UnableToRead);
    }
    let exploration = vstd::bytes::u64_from_le_bytes(
        vstd::slice::slice_subrange(bytes, off + 8, off + 16),
    );
    if exploration > SCALE {
        return Err(PlayerError::UnableToRead);
    }
    let iteration = vstd::bytes::u32_from_le_bytes(
        vstd::slice::slice_subrange(bytes, off + 16, off + 20),
    );
    proof {
        assert(bytes@.subrange(5 + 17 * count_spec, 13 + 17 * count_spec) =~= bytes@.subrange(
            off as int,
            off + 8,
        ));
        assert(bytes@.subrange(13 + 17 * count_spec, 21 + 17 * count_spec) =~= bytes@.subrange(
            off + 8,
            off + 16,
        ));
        assert(bytes@.subrange(21 + 17 * count_spec, 25 + 17 * count_spec) =~= bytes@.subrange(
            off + 16,
            off + 20,
        ));
    }
    Ok((piece, table, learning, exploration, iteration))
}

} // verus!
