use vstd::prelude::*;

use crate::contract::Contract;
use crate::felt::{lemma_felt_bytes_injective, Felt};
use crate::error::DatabaseError;
use crate::history::{indices_increasing, History};

verus! {

/// The eight little-endian bytes of `x`.
pub open spec fn u64_le(x: u64) -> Seq<u8> {
    seq![
        (x & 0xff) as u8,
        ((x >> 8u64) & 0xff) as u8,
        ((x >> 16u64) & 0xff) as u8,
        ((x >> 24u64) & 0xff) as u8,
        ((x >> 32u64) & 0xff) as u8,
        ((x >> 40u64) & 0xff) as u8,
        ((x >> 48u64) & 0xff) as u8,
        ((x >> 56u64) & 0xff) as u8,
    ]
}

/// The number whose little-endian bytes open `b`.
pub open spec fn le_u64(b: Seq<u8>) -> u64 {
    (b[0] as u64) | ((b[1] as u64) << 8u64) | ((b[2] as u64) << 16u64) | ((b[3] as u64)
        << 24u64) | ((b[4] as u64) << 32u64) | ((b[5] as u64) << 40u64) | ((b[6] as u64)
        << 48u64) | ((b[7] as u64) << 56u64)
}

/// One entry: its index in eight little-endian bytes, then the 32 bytes of
/// its value.
pub open spec fn entry_bytes(e: (u64, Felt)) -> Seq<u8> {
    u64_le(e.0) + e.1@
}

/// The entries, one after the other.
pub open spec fn entries_bytes(s: Seq<(u64, Felt)>) -> Seq<u8>
    decreases s.len(),
{
    if s.len() == 0 {
        Seq::empty()
    } else {
        entries_bytes(s.drop_last()) + entry_bytes(s.last())
    }
}

/// A history: its number of entries in eight little-endian bytes, then the
/// entries.
pub open spec fn history_bytes(s: Seq<(u64, Felt)>) -> Seq<u8> {
    u64_le(s.len() as u64) + entries_bytes(s)
}

/// A contract record: its class hash history, then its nonce history.
pub open spec fn contract_bytes(c: (Seq<(u64, Felt)>, Seq<(u64, Felt)>)) -> Seq<u8> {
    history_bytes(c.0) + history_bytes(c.1)
}

/// `s` is a history that can be held, and `b` is its encoding.
pub open spec fn encodes_history(b: Seq<u8>, s: Seq<(u64, Felt)>) -> bool {
    indices_increasing(s) && s.len() <= u64::MAX && history_bytes(s) == b
}

/// `c` is a contract record that can be held, and `b` is its encoding.
pub open spec fn encodes_contract(b: Seq<u8>, c: (Seq<(u64, Felt)>, Seq<(u64, Felt)>)) -> bool {
    &&& indices_increasing(c.0) && c.0.len() <= u64::MAX
    &&& indices_increasing(c.1) && c.1.len() <= u64::MAX
    &&& contract_bytes(c) == b
}

/// The history that `b` encodes, if it encodes one.
pub open spec fn decoded_history(b: Seq<u8>) -> Option<Seq<(u64, Felt)>> {
    if exists|s: Seq<(u64, Felt)>| encodes_history(b, s) {
        Some(choose|s: Seq<(u64, Felt)>| encodes_history(b, s))
    } else {
        None
    }
}

/// The contract record that `b` encodes, if it encodes one.
pub open spec fn decoded_contract(b: Seq<u8>) -> Option<(Seq<(u64, Felt)>, Seq<(u64, Felt)>)> {
    if exists|c: (Seq<(u64, Felt)>, Seq<(u64, Felt)>)| encodes_contract(b, c) {
        Some(choose|c: (Seq<(u64, Felt)>, Seq<(u64, Felt)>)| encodes_contract(b, c))
    } else {
        None
    }
}

/// `x` stands in `b` from position `pos` on.
pub open spec fn occurs_at(b: Seq<u8>, pos: int, x: Seq<u8>) -> bool {
    0 <= pos && pos + x.len() <= b.len() && b.subrange(pos, pos + x.len()) == x
}

proof fn lemma_u64_le_round_trip(x: u64)
    ensures
        le_u64(u64_le(x)) == x,
        u64_le(x).len() == 8,
{
    assert((((x & 0xff) as u8) as u64) | (((((x >> 8u64) & 0xff) as u8) as u64) << 8u64) | ((
    (((x >> 16u64) & 0xff) as u8) as u64) << 16u64) | (((((x >> 24u64) & 0xff) as u8) as u64)
        << 24u64) | (((((x >> 32u64) & 0xff) as u8) as u64) << 32u64) | (((((x >> 40u64) & 0xff)
        as u8) as u64) << 40u64) | (((((x >> 48u64) & 0xff) as u8) as u64) << 48u64) | ((((
    (x >> 56u64) & 0xff) as u8) as u64) << 56u64) == x) by (bit_vector);
}

proof fn lemma_le_u64_round_trip(b: Seq<u8>)
    requires
        b.len() == 8,
    ensures
        u64_le(le_u64(b)) == b,
{
    let b0 = b[0];
    let b1 = b[1];
    let b2 = b[2];
    let b3 = b[3];
    let b4 = b[4];
    let b5 = b[5];
    let b6 = b[6];
    let b7 = b[7];
    let v = le_u64(b);
    assert({
        &&& (v & 0xff) as u8 == b0
        &&& ((v >> 8u64) & 0xff) as u8 == b1
        &&& ((v >> 16u64) & 0xff) as u8 == b2
        &&& ((v >> 24u64) & 0xff) as u8 == b3
        &&& ((v >> 32u64) & 0xff) as u8 == b4
        &&& ((v >> 40u64) & 0xff) as u8 == b5
        &&& ((v >> 48u64) & 0xff) as u8 == b6
        &&& ((v >> 56u64) & 0xff) as u8 == b7
    }) by (bit_vector)
        requires
            v == (b0 as u64) | ((b1 as u64) << 8u64) | ((b2 as u64) << 16u64) | ((b3 as u64)
                << 24u64) | ((b4 as u64) << 32u64) | ((b5 as u64) << 40u64) | ((b6 as u64)
                << 48u64) | ((b7 as u64) << 56u64),
    ;
    assert(u64_le(v) =~= b);
}

proof fn lemma_entries_bytes_layout(s: Seq<(u64, Felt)>)
    ensures
        entries_bytes(s).len() == 40 * s.len(),
        forall|j: int|
            0 <= j < s.len() ==> #[trigger] entries_bytes(s).subrange(40 * j, 40 * j + 40)
                == entry_bytes(s[j]),
    decreases s.len(),
{
    if s.len() > 0 {
        let t = s.drop_last();
        lemma_entries_bytes_layout(t);
        let e = entry_bytes(s.last());
        lemma_u64_le_round_trip(s.last().0);
        assert(e.len() == 40);
        let all = entries_bytes(s);
        assert(all == entries_bytes(t) + e);
        assert forall|j: int| 0 <= j < s.len() implies #[trigger] all.subrange(40 * j, 40 * j + 40)
            == entry_bytes(s[j]) by {
            if j < t.len() {
                assert(all.subrange(40 * j, 40 * j + 40) =~= entries_bytes(t).subrange(
                    40 * j,
                    40 * j + 40,
                ));
                assert(s[j] == t[j]);
            } else {
                assert(all.subrange(40 * j, 40 * j + 40) =~= e);
            }
        }
    }
}

/// What the encoding of `s`, standing in `b` at `pos`, says of its length and
/// of each entry.
proof fn lemma_read_history(b: Seq<u8>, pos: int, s: Seq<(u64, Felt)>)
    requires
        s.len() <= u64::MAX,
        occurs_at(b, pos, history_bytes(s)),
    ensures
        history_bytes(s).len() == 8 + 40 * s.len(),
        le_u64(b.subrange(pos, pos + 8)) == s.len(),
        forall|j: int|
            0 <= j < s.len() ==> {
                &&& le_u64(#[trigger] b.subrange(pos + 8 + 40 * j, pos + 8 + 40 * j + 8)) == s[j].0
                &&& b.subrange(pos + 8 + 40 * j + 8, pos + 8 + 40 * j + 40) == s[j].1@
            },
{
    let hb = history_bytes(s);
    lemma_u64_le_round_trip(s.len() as u64);
    lemma_entries_bytes_layout(s);
    assert(b.subrange(pos, pos + 8) =~= hb.subrange(0, 8));
    assert(hb.subrange(0, 8) =~= u64_le(s.len() as u64));
    assert forall|j: int| 0 <= j < s.len() implies {
        &&& le_u64(#[trigger] b.subrange(pos + 8 + 40 * j, pos + 8 + 40 * j + 8)) == s[j].0
        &&& b.subrange(pos + 8 + 40 * j + 8, pos + 8 + 40 * j + 40) == s[j].1@
    } by {
        let e = entry_bytes(s[j]);
        assert(entries_bytes(s).subrange(40 * j, 40 * j + 40) == e);
        lemma_u64_le_round_trip(s[j].0);
        let eb = entries_bytes(s);
        assert forall|k: int| 0 <= k < 40 implies b[pos + 8 + 40 * j + k] == e[k] by {
            assert(b.subrange(pos, pos + hb.len())[8 + 40 * j + k] == b[pos + 8 + 40 * j + k]);
            assert(hb[8 + 40 * j + k] == eb[40 * j + k]);
            assert(eb.subrange(40 * j, 40 * j + 40)[k] == eb[40 * j + k]);
        }
        assert(b.subrange(pos + 8 + 40 * j, pos + 8 + 40 * j + 8) =~= e.subrange(0, 8));
        assert(e.subrange(0, 8) =~= u64_le(s[j].0));
        assert(b.subrange(pos + 8 + 40 * j + 8, pos + 8 + 40 * j + 40) =~= e.subrange(8, 40));
        assert(e.subrange(8, 40) =~= s[j].1@);
    }
}

/// Two histories whose encodings both stand in `b` at `pos` are the same.
proof fn lemma_history_at_unique(b: Seq<u8>, pos: int, s: Seq<(u64, Felt)>, t: Seq<(u64, Felt)>)
    requires
        s.len() <= u64::MAX,
        t.len() <= u64::MAX,
        occurs_at(b, pos, history_bytes(s)),
        occurs_at(b, pos, history_bytes(t)),
    ensures
        s == t,
{
    lemma_read_history(b, pos, s);
    lemma_read_history(b, pos, t);
    assert forall|j: int| 0 <= j < s.len() implies s[j] == t[j] by {
        assert(le_u64(b.subrange(pos + 8 + 40 * j, pos + 8 + 40 * j + 8)) == s[j].0);
        assert(le_u64(b.subrange(pos + 8 + 40 * j, pos + 8 + 40 * j + 8)) == t[j].0);
        lemma_felt_bytes_injective(s[j].1, t[j].1);
    }
    assert(s =~= t);
}

fn push_u64_le(out: &mut Vec<u8>, x: u64)
    ensures
        final(out)@ == old(out)@ + u64_le(x),
{
    out.push((x & 0xff) as u8);
    out.push(((x >> 8u64) & 0xff) as u8);
    out.push(((x >> 16u64) & 0xff) as u8);
    out.push(((x >> 24u64) & 0xff) as u8);
    out.push(((x >> 32u64) & 0xff) as u8);
    out.push(((x >> 40u64) & 0xff) as u8);
    out.push(((x >> 48u64) & 0xff) as u8);
    out.push(((x >> 56u64) & 0xff) as u8);
    assert(final(out)@ =~= old(out)@ + u64_le(x));
}

fn read_u64_le(b: &[u8], p: usize) -> (r: u64)
    requires
        p + 8 <= b@.len(),
    ensures
        r == le_u64(b@.subrange(p as int, p + 8)),
{
    let ghost w = b@.subrange(p as int, p + 8);
    assert(w[0] == b@[p as int] && w[1] == b@[p + 1] && w[2] == b@[p + 2] && w[3] == b@[p + 3]);
    assert(w[4] == b@[p + 4] && w[5] == b@[p + 5] && w[6] == b@[p + 6] && w[7] == b@[p + 7]);
    (b[p] as u64) | ((b[p + 1] as u64) << 8u64) | ((b[p + 2] as u64) << 16u64) | ((b[p + 3] as u64)
        << 24u64) | ((b[p + 4] as u64) << 32u64) | ((b[p + 5] as u64) << 40u64) | ((b[p + 6] as u64)
        << 48u64) | ((b[p + 7] as u64) << 56u64)
}

fn read_felt(b: &[u8], p: usize) -> (r: Felt)
    requires
        p + 32 <= b@.len(),
    ensures
        r@ == b@.subrange(p as int, p + 32),
{
    let len = b.len();
    let mut bytes: [u8; 32] = [0u8; 32];
    let mut i: usize = 0;
    while i < 32
        invariant
            len == b@.len(),
            p + 32 <= b@.len(),
            i <= 32,
            bytes@.len() == 32,
            forall|j: int| 0 <= j < i ==> bytes@[j] == b@[p + j],
        decreases 32 - i,
    {
        bytes[i] = b[p + i];
        i += 1;
    }
    let r = Felt { bytes };
    assert(r@ =~= b@.subrange(p as int, p + 32));
    r
}

fn encode_history_into(out: &mut Vec<u8>, h: &History<Felt>)
    ensures
        final(out)@ == old(out)@ + history_bytes(h@),
{
    let ghost start = out@;
    push_u64_le(out, h.len() as u64);
    let entries = h.entries();
    let mut k: usize = 0;
    while k < entries.len()
        invariant
            entries@ == h@,
            k <= entries@.len(),
            out@ == start + u64_le(h@.len() as u64) + entries_bytes(h@.take(k as int)),
        decreases entries@.len() - k,
    {
        let e = &entries[k];
        push_u64_le(out, e.0);
        out.extend_from_slice(e.1.bytes());
        proof {
            assert(h@.take(k + 1).drop_last() =~= h@.take(k as int));
            assert(out@ =~= start + u64_le(h@.len() as u64) + entries_bytes(h@.take(k + 1)));
        }
        k += 1;
    }
    proof {
        assert(h@.take(k as int) =~= h@);
        assert(out@ =~= start + history_bytes(h@));
    }
}

/// The encoding of a history.
pub fn encode_history(h: &History<Felt>) -> (r: Vec<u8>)
    ensures
        r@ == history_bytes(h@),
{
    let mut out: Vec<u8> = Vec::new();
    encode_history_into(&mut out, h);
    assert(out@ =~= history_bytes(h@));
    out
}

/// The encoding of a contract record.
pub fn encode_contract(c: &Contract) -> (r: Vec<u8>)
    ensures
        r@ == contract_bytes(c@),
{
    let mut out: Vec<u8> = Vec::new();
    encode_history_into(&mut out, c.class_hash_history());
    encode_history_into(&mut out, c.nonce_history());
    assert(out@ =~= contract_bytes(c@));
    out
}

/// Reads the history whose encoding stands in `b` at `pos`, with the position
/// just past it.
fn decode_history_at(b: &[u8], pos: usize) -> (r: Option<(History<Felt>, usize)>)
    requires
        pos <= b@.len(),
    ensures
        match r {
            Some((h, end)) => {
                &&& h.wf()
                &&& h@.len() <= u64::MAX
                &&& occurs_at(b@, pos as int, history_bytes(h@))
                &&& end == pos + history_bytes(h@).len()
            },
            None => forall|s: Seq<(u64, Felt)>|
                indices_increasing(s) && s.len() <= u64::MAX ==> !occurs_at(
                    b@,
                    pos as int,
                    #[trigger] history_bytes(s),
                ),
        },
{
    if b.len() - pos < 8 {
        proof {
            assert forall|s: Seq<(u64, Felt)>|
                indices_increasing(s) && s.len() <= u64::MAX implies !occurs_at(
                b@,
                pos as int,
                #[trigger] history_bytes(s),
            ) by {
                lemma_entries_bytes_layout(s);
                lemma_u64_le_round_trip(s.len() as u64);
            }
        }
        return None;
    }
    let n = read_u64_le(b, pos);
    let avail: usize = (b.len() - pos - 8) / 40;
    if n > avail as u64 {
        proof {
            assert forall|s: Seq<(u64, Felt)>|
                indices_increasing(s) && s.len() <= u64::MAX implies !occurs_at(
                b@,
                pos as int,
                #[trigger] history_bytes(s),
            ) by {
                if occurs_at(b@, pos as int, history_bytes(s)) {
                    lemma_read_history(b@, pos as int, s);
                    let l = b@.len() - pos - 8;
                    assert(40 * s.len() <= l ==> s.len() <= l / 40) by (nonlinear_arith);
                }
            }
        }
        return None;
    }
    let n: usize = n as usize;
    assert(40 * n <= b@.len() - pos - 8) by (nonlinear_arith)
        requires
            n <= avail,
            avail == (b@.len() - pos - 8) / 40,
            b@.len() - pos - 8 >= 0,
    ;
    let mut h: History<Felt> = History::new();
    let mut k: usize = 0;
    let mut p: usize = pos + 8;
    let len = b.len();
    while k < n
        invariant
            len == b@.len(),
            pos + 8 + 40 * n <= b@.len(),
            n == le_u64(b@.subrange(pos as int, pos + 8)),
            h.wf(),
            h@.len() == k,
            k <= n,
            p == pos + 8 + 40 * k,
            b@.subrange(pos + 8, p as int) == entries_bytes(h@),
            k > 0 ==> h@[k - 1].0 == le_u64(b@.subrange(p - 40, p - 32)),
        decreases n - k,
    {
        let idx = read_u64_le(b, p);
        let f = read_felt(b, p + 8);
        let ghost before = h@;
        match h.push(idx, f) {
            Err(()) => {
                proof {
                    assert forall|s: Seq<(u64, Felt)>|
                        indices_increasing(s) && s.len() <= u64::MAX implies !occurs_at(
                        b@,
                        pos as int,
                        #[trigger] history_bytes(s),
                    ) by {
                        if occurs_at(b@, pos as int, history_bytes(s)) {
                            lemma_read_history(b@, pos as int, s);
                            let j = k - 1;
                            assert(pos + 8 + 40 * j == p - 40);
                            assert(le_u64(b@.subrange(pos + 8 + 40 * j, pos + 8 + 40 * j + 8))
                                == s[j].0);
                            assert(b@.subrange(pos + 8 + 40 * j, pos + 8 + 40 * j + 8)
                                == b@.subrange(p - 40, p - 32));
                            assert(s[j].0 == before[j].0);
                            assert(le_u64(b@.subrange(pos + 8 + 40 * k, pos + 8 + 40 * k + 8))
                                == s[k as int].0);
                            assert(s[k as int].0 == idx);
                            assert(s[j].0 < s[k as int].0);
                        }
                    }
                }
                return None;
            },
            Ok(()) => {},
        }
        proof {
            lemma_le_u64_round_trip(b@.subrange(p as int, p + 8));
            assert(h@.drop_last() =~= before);
            assert(entry_bytes((idx, f)) =~= b@.subrange(p as int, p + 40));
            assert(b@.subrange(pos + 8, p + 40) =~= b@.subrange(pos + 8, p as int) + b@.subrange(
                p as int,
                p + 40,
            ));
        }
        k += 1;
        p += 40;
    }
    proof {
        lemma_le_u64_round_trip(b@.subrange(pos as int, pos + 8));
        lemma_entries_bytes_layout(h@);
        assert(b@.subrange(pos as int, p as int) =~= b@.subrange(pos as int, pos + 8) + b@.subrange(
            pos + 8,
            p as int,
        ));
    }
    Some((h, p))
}

/// The history that `b` encodes; fails when `b` encodes none.
pub fn decode_history(b: &[u8]) -> (r: Result<History<Felt>, DatabaseError>)
    ensures
        match r {
            Ok(h) => h.wf() && decoded_history(b@) == Some(h@),
            Err(e) => e == DatabaseError::DecodeError && decoded_history(b@) is None,
        },
{
    match decode_history_at(b, 0) {
        Some((h, end)) => {
            if end == b.len() {
                proof {
                    assert(b@.subrange(0, b@.len() as int) =~= b@);
                    assert(encodes_history(b@, h@));
                    let c = choose|s: Seq<(u64, Felt)>| encodes_history(b@, s);
                    assert(occurs_at(b@, 0, history_bytes(c)));
                    lemma_history_at_unique(b@, 0, c, h@);
                }
                Ok(h)
            } else {
                proof {
                    assert forall|s: Seq<(u64, Felt)>| !encodes_history(b@, s) by {
                        if encodes_history(b@, s) {
                            assert(b@.subrange(0, b@.len() as int) =~= b@);
                            lemma_history_at_unique(b@, 0, s, h@);
                        }
                    }
                }
                Err(DatabaseError::DecodeError)
            }
        },
        None => {
            proof {
                assert forall|s: Seq<(u64, Felt)>| !encodes_history(b@, s) by {
                    if encodes_history(b@, s) {
                        assert(b@.subrange(0, b@.len() as int) =~= b@);
                    }
                }
            }
            Err(DatabaseError::DecodeError)
        },
    }
}

/// The contract record that `b` encodes; fails when `b` encodes none.
pub fn decode_contract(b: &[u8]) -> (r: Result<Contract, DatabaseError>)
    ensures
        match r {
            Ok(c) => c.wf() && decoded_contract(b@) == Some(c@),
            Err(e) => e == DatabaseError::DecodeError && decoded_contract(b@) is None,
        },
{
    let first = decode_history_at(b, 0);
    match first {
        None => {
            proof {
                assert forall|c: (Seq<(u64, Felt)>, Seq<(u64, Felt)>)|
                    !encodes_contract(b@, c) by {
                    if encodes_contract(b@, c) {
                        lemma_contract_parts(b@, c);
                    }
                }
            }
            Err(DatabaseError::DecodeError)
        },
        Some((h1, e1)) => {
            let second = decode_history_at(b, e1);
            match second {
                None => {
                    proof {
                        assert forall|c: (Seq<(u64, Felt)>, Seq<(u64, Felt)>)|
                            !encodes_contract(b@, c) by {
                            if encodes_contract(b@, c) {
                                lemma_contract_parts(b@, c);
                                lemma_history_at_unique(b@, 0, c.0, h1@);
                            }
                        }
                    }
                    Err(DatabaseError::DecodeError)
                },
                Some((h2, e2)) => {
                    if e2 == b.len() {
                        let c = Contract::from_histories(h1, h2);
                        proof {
                            let hb1 = history_bytes(c@.0);
                            let hb2 = history_bytes(c@.1);
                            assert(b@ =~= hb1 + hb2) by {
                                assert(b@.subrange(0, hb1.len() as int) == hb1);
                                assert(b@.subrange(e1 as int, e2 as int) == hb2);
                                assert forall|i: int| 0 <= i < b@.len() implies b@[i] == (hb1
                                    + hb2)[i] by {
                                    if i < hb1.len() {
                                        assert(b@.subrange(0, hb1.len() as int)[i] == b@[i]);
                                    } else {
                                        assert(b@.subrange(e1 as int, e2 as int)[i - e1]
                                            == b@[i]);
                                    }
                                }
                            }
                            assert(encodes_contract(b@, c@));
                            let d = choose|d: (Seq<(u64, Felt)>, Seq<(u64, Felt)>)|
                                encodes_contract(b@, d);
                            lemma_contract_parts(b@, d);
                            lemma_history_at_unique(b@, 0, d.0, c@.0);
                            lemma_history_at_unique(b@, e1 as int, d.1, c@.1);
                        }
                        Ok(c)
                    } else {
                        proof {
                            assert forall|c: (Seq<(u64, Felt)>, Seq<(u64, Felt)>)|
                                !encodes_contract(b@, c) by {
                                if encodes_contract(b@, c) {
                                    lemma_contract_parts(b@, c);
                                    lemma_history_at_unique(b@, 0, c.0, h1@);
                                    lemma_history_at_unique(b@, e1 as int, c.1, h2@);
                                }
                            }
                        }
                        Err(DatabaseError::DecodeError)
                    }
                },
            }
        },
    }
}

/// Where the two histories of an encoded contract record stand.
proof fn lemma_contract_parts(b: Seq<u8>, c: (Seq<(u64, Felt)>, Seq<(u64, Felt)>))
    requires
        contract_bytes(c) == b,
    ensures
        occurs_at(b, 0, history_bytes(c.0)),
        occurs_at(b, history_bytes(c.0).len() as int, history_bytes(c.1)),
        history_bytes(c.0).len() + history_bytes(c.1).len() == b.len(),
{
    let hb1 = history_bytes(c.0);
    let hb2 = history_bytes(c.1);
    assert(b.subrange(0, hb1.len() as int) =~= hb1);
    assert(b.subrange(hb1.len() as int, (hb1.len() + hb2.len()) as int) =~= hb2);
}

/// Decoding the encoding of a history gives that history back.
pub proof fn lemma_history_round_trip(s: Seq<(u64, Felt)>)
    requires
        indices_increasing(s),
        s.len() <= u64::MAX,
    ensures
        decoded_history(history_bytes(s)) == Some(s),
{
    let b = history_bytes(s);
    assert(encodes_history(b, s));
    let c = choose|t: Seq<(u64, Felt)>| encodes_history(b, t);
    assert(b.subrange(0, b.len() as int) =~= b);
    lemma_history_at_unique(b, 0, c, s);
}

/// Bytes that decode to a history are the encoding of that history.
pub proof fn lemma_history_bytes_round_trip(b: Seq<u8>)
    requires
        decoded_history(b) is Some,
    ensures
        history_bytes(decoded_history(b)->Some_0) == b,
{
}

/// Decoding the encoding of a contract record gives that record back.
pub proof fn lemma_contract_round_trip(c: (Seq<(u64, Felt)>, Seq<(u64, Felt)>))
    requires
        indices_increasing(c.0),
        c.0.len() <= u64::MAX,
        indices_increasing(c.1),
        c.1.len() <= u64::MAX,
    ensures
        decoded_contract(contract_bytes(c)) == Some(c),
{
    let b = contract_bytes(c);
    assert(encodes_contract(b, c));
    let d = choose|d: (Seq<(u64, Felt)>, Seq<(u64, Felt)>)| encodes_contract(b, d);
    lemma_contract_parts(b, c);
    lemma_contract_parts(b, d);
    lemma_history_at_unique(b, 0, d.0, c.0);
    lemma_history_at_unique(b, history_bytes(c.0).len() as int, d.1, c.1);
}

/// Bytes that decode to a contract record are the encoding of that record.
pub proof fn lemma_contract_bytes_round_trip(b: Seq<u8>)
    requires
        decoded_contract(b) is Some,
    ensures
        contract_bytes(decoded_contract(b)->Some_0) == b,
{
}

} // verus!
