//! The player-state blob: the inventory saved beside a world, as the magic
//! `PLR1`, a `u16` version, a `u16` entry count and six-byte entries
//! (`u16` item, `u32` quantity).
use vstd::prelude::*;
use crate::inventory::{added_all, lemma_added_all_rebuilds, lemma_entries_within_slots, wf_entries, Inventory, ItemId, ITEM_NONE};
use crate::text::{decimal, push_decimal};
use crate::wire::{concat_map, lemma_concat_map_fixed, lemma_le_round_trip, le16, le32, put_u16, put_u32, read_u16, read_u32, u16_at, u32_at};

verus! {

/// The blob version this module writes and reads.
pub const PS_VERSION: u16 = 1;

/// The four bytes `PLR1` that open every blob.
pub open spec fn ps_magic() -> Seq<u8> {
    seq![80u8, 76u8, 82u8, 49u8]
}

/// One stored entry: the item, then the quantity.
pub open spec fn entry_bytes(e: (ItemId, u32)) -> Seq<u8> {
    le16(e.0) + le32(e.1)
}

/// How many of `n` entries fit the `u16` count.
pub open spec fn stored_count(n: nat) -> nat {
    if n <= 65535 {
        n
    } else {
        65535
    }
}

/// The blob written for inventory contents `s`.
pub open spec fn player_state_bytes(s: Seq<(ItemId, u32)>) -> Seq<u8> {
    let n = stored_count(s.len());
    ps_magic() + le16(PS_VERSION) + le16(n as u16) + concat_map(s.take(n as int), |e: (ItemId, u32)| entry_bytes(e))
}

/// The `n` entries stored after the eight-byte header.
pub open spec fn stored_entries(b: Seq<u8>, n: nat) -> Seq<(ItemId, u32)> {
    Seq::new(n, |i: int| (u16_at(b, 8 + 6 * i), u32_at(b, 10 + 6 * i)))
}

/// What reading the blob `b` yields: the header is checked (length, magic,
/// version), the count must match the bytes exactly, and the stored entries
/// are added in order to an empty inventory.
pub open spec fn player_state_from(b: Seq<u8>) -> Result<Seq<(ItemId, u32)>, Seq<char>> {
    if b.len() < 8 {
        Err("player_state blob too short"@)
    } else if b.subrange(0, 4) != ps_magic() {
        Err("player_state magic mismatch"@)
    } else if u16_at(b, 4) != PS_VERSION {
        Err("player_state version "@ + decimal(u16_at(b, 4) as nat) + " unsupported"@)
    } else if 8 + 6 * u16_at(b, 6) > b.len() {
        Err("player_state truncated"@)
    } else if 8 + 6 * u16_at(b, 6) != b.len() {
        Err("player_state trailing bytes"@)
    } else {
        Ok(added_all(stored_entries(b, u16_at(b, 6) as nat)))
    }
}

/// Writes the inventory's entries, in item order.
pub fn encode_player_state_v1(inv: &Inventory) -> (out: Vec<u8>)
    ensures
        out@ == player_state_bytes(inv@),
{
    let entries = inv.entries();
    let n: usize = if entries.len() < 65535 { entries.len() } else { 65535 };
    let mut out: Vec<u8> = Vec::new();
    out.push(80);
    out.push(76);
    out.push(82);
    out.push(49);
    put_u16(&mut out, PS_VERSION);
    put_u16(&mut out, n as u16);
    let ghost head = out@;
    let ghost es = entries@.take(n as int);
    let mut i: usize = 0;
    while i < n
        invariant
            0 <= i <= n,
            n <= entries@.len(),
            es == entries@.take(n as int),
            out@ == head + concat_map(es.take(i as int), |e: (ItemId, u32)| entry_bytes(e)),
        decreases n - i,
    {
        let (item, qty) = entries[i];
        put_u16(&mut out, item);
        put_u32(&mut out, qty);
        proof {
            assert(es[i as int] == (item, qty));
            assert(es.take(i + 1).drop_last() =~= es.take(i as int));
            assert(out@ =~= head + concat_map(es.take(i + 1), |e: (ItemId, u32)| entry_bytes(e)));
        }
        i = i + 1;
    }
    proof {
        assert(es.take(n as int) =~= es);
        assert(out@ =~= player_state_bytes(inv@));
    }
    out
}

fn error_text(msg: &str) -> (s: String)
    ensures
        s@ == msg@,
{
    String::from_str(msg)
}

/// Reads an inventory back from a blob, or says why the blob is refused.
pub fn decode_player_state_v1(bytes: &[u8]) -> (r: Result<Inventory, String>)
    ensures
        match player_state_from(bytes@) {
            Ok(s) => r matches Ok(inv) && inv@ == s,
            Err(msg) => r matches Err(e) && e@ == msg,
        },
{
    let len = bytes.len();
    if len < 8 {
        return Err(error_text("player_state blob too short"));
    }
    if bytes[0] != 80 || bytes[1] != 76 || bytes[2] != 82 || bytes[3] != 49 {
        proof {
            assert(bytes@.subrange(0, 4) != ps_magic()) by {
                if bytes@.subrange(0, 4) == ps_magic() {
                    assert(bytes@.subrange(0, 4)[0] == bytes@[0]);
                    assert(bytes@.subrange(0, 4)[1] == bytes@[1]);
                    assert(bytes@.subrange(0, 4)[2] == bytes@[2]);
                    assert(bytes@.subrange(0, 4)[3] == bytes@[3]);
                }
            }
        }
        return Err(error_text("player_state magic mismatch"));
    }
    assert(bytes@.subrange(0, 4) =~= ps_magic());
    let version = read_u16(bytes, 4);
    if version != PS_VERSION {
        let mut s = String::from_str("player_state version ");
        push_decimal(&mut s, version as u64);
        s.append(" unsupported");
        return Err(s);
    }
    let count = read_u16(bytes, 6) as usize;
    let ghost entries = stored_entries(bytes@, count as nat);
    let mut offset: usize = 8;
    let mut inv = Inventory::default();
    let mut i: usize = 0;
    assert(entries.take(0) =~= Seq::<(ItemId, u32)>::empty());
    while i < count
        invariant
            0 <= i <= count,
            count <= 65535,
            len == bytes@.len(),
            offset == 8 + 6 * i,
            offset <= len,
            bytes@.subrange(0, 4) == ps_magic(),
            u16_at(bytes@, 4) == PS_VERSION,
            count as int == u16_at(bytes@, 6) as int,
            entries == stored_entries(bytes@, count as nat),
            inv@ == added_all(entries.take(i as int)),
        decreases count - i,
    {
        if offset + 6 > len {
            return Err(error_text("player_state truncated"));
        }
        let item = read_u16(bytes, offset);
        let qty = read_u32(bytes, offset + 2);
        offset = offset + 6;
        proof {
            assert(entries[i as int] == (item, qty));
            assert(entries.take(i + 1).drop_last() =~= entries.take(i as int));
        }
        if item != ITEM_NONE && qty > 0 {
            inv.add(item, qty);
        }
        i = i + 1;
    }
    if offset != len {
        return Err(error_text("player_state trailing bytes"));
    }
    proof {
        assert(entries.take(count as int) =~= entries);
    }
    Ok(inv)
}

/// Reading back what was written gives the same inventory.
pub proof fn lemma_player_state_round_trip(s: Seq<(ItemId, u32)>)
    requires
        wf_entries(s),
    ensures
        player_state_from(player_state_bytes(s)) == Ok::<Seq<(ItemId, u32)>, Seq<char>>(s),
{
    lemma_le_round_trip();
    lemma_entries_within_slots(s);
    lemma_added_all_rebuilds(s);
    let n = s.len();
    let f = |e: (ItemId, u32)| entry_bytes(e);
    assert(s.take(n as int) =~= s);
    assert forall|i: int| 0 <= i < s.len() implies #[trigger] f(s[i]).len() == 6 by {}
    lemma_concat_map_fixed(s, f, 6);
    let b = player_state_bytes(s);
    let c = concat_map(s, f);
    assert(b =~= ps_magic() + le16(PS_VERSION) + le16(n as u16) + c);
    assert(b.len() == 8 + 6 * n);
    assert(b.subrange(0, 4) =~= ps_magic());
    assert(b.subrange(4, 6) =~= le16(PS_VERSION));
    assert(b.subrange(6, 8) =~= le16(n as u16));
    let got = stored_entries(b, n);
    assert forall|i: int| 0 <= i < n implies got[i] == s[i] by {
        assert(c.subrange(6 * i, 6 * i + 6) == f(s[i]));
        assert(b.subrange(8 + 6 * i, 10 + 6 * i) =~= c.subrange(6 * i, 6 * i + 6).subrange(0, 2));
        assert(b.subrange(10 + 6 * i, 14 + 6 * i) =~= c.subrange(6 * i, 6 * i + 6).subrange(2, 6));
        assert(f(s[i]).subrange(0, 2) =~= le16(s[i].0));
        assert(f(s[i]).subrange(2, 6) =~= le32(s[i].1));
    }
    assert(got =~= s);
}

} // verus!
