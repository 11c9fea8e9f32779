//! The wire codec: base-128 varints, the encoding of block range queries
//! (sent without length framing) and of streamed data items (sent with a
//! leading length), and strict decoders proved to invert the encoders.

use vstd::prelude::*;

use crate::protocol::{
    BlockHash, BlockHashOrNumber, BlockHeader, BlockNumber, Data, DataType, Direction,
    InternalQuery, Signature,
};
use crate::state_diff::ThinStateDiff;

verus! {

/// The base-128 little-endian encoding of a number: seven value bits per byte,
/// high bit set on every byte but the last.
pub open spec fn spec_varint(v: nat) -> Seq<u8>
    decreases v,
{
    if v < 128 {
        seq![v as u8]
    } else {
        seq![(128 + (v % 128)) as u8] + spec_varint(v / 128)
    }
}

/// Reads a varint at the position: the value and the position after it.
pub open spec fn spec_decode_varint(s: Seq<u8>, pos: int) -> Option<(nat, int)>
    decreases s.len() - pos when 0 <= pos <= s.len()
{
    if pos >= s.len() {
        None
    } else {
        let byte = s[pos];
        if byte < 128 {
            Some(((byte as nat), pos + 1))
        } else {
            match spec_decode_varint(s, pos + 1) {
                None => None,
                Some((rest, end)) => Some((((byte - 128) as nat + 128 * rest), end)),
            }
        }
    }
}

/// Reads a varint that fits a machine word.
pub open spec fn spec_decode_u64(s: Seq<u8>, pos: int) -> Option<(u64, int)> {
    match spec_decode_varint(s, pos) {
        None => None,
        Some((v, end)) => if v <= u64::MAX {
            Some(((v as u64), end))
        } else {
            None
        },
    }
}

/// Decoding a varint right after any prefix recovers the encoded value.
pub proof fn lemma_varint_round_trip(prefix: Seq<u8>, v: nat, suffix: Seq<u8>)
    ensures
        spec_decode_varint(prefix + spec_varint(v) + suffix, prefix.len() as int) == Some(
            (v, (prefix.len() + spec_varint(v).len()) as int),
        ),
    decreases v,
{
    let s = prefix + spec_varint(v) + suffix;
    let pos = prefix.len() as int;
    if v < 128 {
        assert(s[pos] == v as u8);
    } else {
        let first = (128 + (v % 128)) as u8;
        assert(s[pos] == first);
        assert(first >= 128);
        let prefix2 = prefix + seq![first];
        assert(prefix2 + spec_varint(v / 128) + suffix =~= s);
        lemma_varint_round_trip(prefix2, v / 128, suffix);
        assert(spec_decode_varint(s, pos + 1) == Some(
            ((v / 128) as nat, (pos + 1 + spec_varint(v / 128).len()) as int),
        ));
        assert((first - 128) as nat + 128 * (v / 128) == v) by (nonlinear_arith)
            requires
                first == 128 + (v % 128),
                v >= 128,
        ;
        assert(spec_varint(v).len() == 1 + spec_varint(v / 128).len());
    }
}

/// Appends the varint encoding of the value.
pub fn encode_varint(value: u64, out: &mut Vec<u8>)
    ensures
        final(out)@ == old(out)@ + spec_varint(value as nat),
{
    let mut v: u64 = value;
    while v >= 128
        invariant
            old(out)@ + spec_varint(value as nat) == out@ + spec_varint(v as nat),
        decreases v,
    {
        let ghost v0 = v as nat;
        out.push((128 + (v % 128)) as u8);
        v = v / 128;
        proof {
            assert(spec_varint(v0) == seq![(128 + (v0 % 128)) as u8] + spec_varint(v0 / 128));
            assert(old(out)@ + spec_varint(value as nat) =~= out@ + spec_varint(v as nat));
        }
    }
    let ghost v0 = v as nat;
    out.push(v as u8);
    proof {
        assert(spec_varint(v0) == seq![v0 as u8]);
        assert(final(out)@ =~= old(out)@ + spec_varint(value as nat));
    }
}

/// Reads a varint that fits a machine word at the position.
pub fn decode_u64(s: &Vec<u8>, pos: usize) -> (r: Option<(u64, usize)>)
    requires
        pos <= s@.len(),
    ensures
        match r {
            Some((v, end)) => spec_decode_u64(s@, pos as int) == Some((v, end as int)) && pos < end
                <= s@.len(),
            None => spec_decode_u64(s@, pos as int) is None,
        },
    decreases s@.len() - pos,
{
    if pos >= s.len() {
        return None;
    }
    let byte = s[pos];
    if byte < 128 {
        Some(((byte as u64), pos + 1))
    } else {
        match decode_u64(s, pos + 1) {
            None => {
                proof {
                    match spec_decode_varint(s@, pos as int + 1) {
                        Some((rest, end)) => {
                            assert(rest > u64::MAX);
                            assert((byte - 128) as nat + 128 * rest > u64::MAX)
                                by (nonlinear_arith)
                                requires
                                    rest > u64::MAX,
                            ;
                        },
                        None => {},
                    }
                }
                None
            },
            Some((rest, end)) => {
                if rest <= (u64::MAX - 127) / 128 {
                    let value: u64 = (byte as u64 - 128) + 128 * rest;
                    Some((value, end))
                } else {
                    proof {
                        assert((byte - 128) as nat + 128 * (rest as nat) > u64::MAX)
                            by (nonlinear_arith)
                            requires
                                rest > (u64::MAX - 127) / 128,
                        ;
                    }
                    None
                }
            },
        }
    }
}

/// The byte standing for a direction.
pub open spec fn direction_byte(direction: Direction) -> u8 {
    match direction {
        Direction::Forward => 0,
        Direction::Backward => 1,
    }
}

/// The byte standing for a kind of data.
pub open spec fn data_type_byte(data_type: DataType) -> u8 {
    match data_type {
        DataType::SignedBlockHeader => 0,
        DataType::StateDiff => 1,
    }
}

/// The encoding of a block range query: the start (a tagged block number or
/// block hash), the direction, the limit and the step. Queries travel without
/// length framing.
pub open spec fn spec_encode_query(q: InternalQuery) -> Seq<u8> {
    (match q.start_block {
        BlockHashOrNumber::Number(n) => seq![1u8] + spec_varint(n.0 as nat),
        BlockHashOrNumber::Hash(h) => seq![2u8] + spec_varint(h.0 as nat),
    }) + seq![direction_byte(q.direction)] + spec_varint(q.limit as nat) + spec_varint(
        q.step as nat,
    )
}

/// Reads a whole query: the buffer must hold exactly one query encoding.
pub open spec fn spec_decode_query(s: Seq<u8>) -> Option<InternalQuery> {
    if s.len() == 0 {
        None
    } else {
        let start_result = match spec_decode_u64(s, 1) {
            None => None,
            Some((word, end)) => if s[0] == 1 {
                Some((BlockHashOrNumber::Number(BlockNumber(word)), end))
            } else if s[0] == 2 {
                Some((BlockHashOrNumber::Hash(BlockHash(word)), end))
            } else {
                None
            },
        };
        match start_result {
            None => None,
            Some((start_block, pos1)) => if pos1 >= s.len() || s[pos1] > 1 {
                None
            } else {
                let direction = if s[pos1] == 0 {
                    Direction::Forward
                } else {
                    Direction::Backward
                };
                match spec_decode_u64(s, pos1 + 1) {
                    None => None,
                    Some((limit, pos2)) => match spec_decode_u64(s, pos2) {
                        None => None,
                        Some((step, pos3)) => if pos3 == s.len() {
                            Some(InternalQuery { start_block, direction, limit, step })
                        } else {
                            None
                        },
                    },
                }
            },
        }
    }
}

/// Encodes a block range query.
pub fn encode_query(q: &InternalQuery) -> (r: Vec<u8>)
    ensures
        r@ == spec_encode_query(*q),
{
    let mut out: Vec<u8> = Vec::new();
    match q.start_block {
        BlockHashOrNumber::Number(n) => {
            out.push(1);
            encode_varint(n.0, &mut out);
        },
        BlockHashOrNumber::Hash(h) => {
            out.push(2);
            encode_varint(h.0, &mut out);
        },
    }
    match q.direction {
        Direction::Forward => out.push(0),
        Direction::Backward => out.push(1),
    }
    encode_varint(q.limit, &mut out);
    encode_varint(q.step, &mut out);
    proof {
        assert(out@ =~= spec_encode_query(*q));
    }
    out
}

/// Decodes a block range query; only exact query encodings and their
/// non-canonical varint variants are accepted.
pub fn decode_query(bytes: &Vec<u8>) -> (r: Option<InternalQuery>)
    ensures
        r == spec_decode_query(bytes@),
{
    if bytes.len() == 0 {
        return None;
    }
    let tag = bytes[0];
    let (start_block, pos1): (BlockHashOrNumber, usize) = match decode_u64(bytes, 1) {
        None => {
            return None;
        },
        Some((word, end)) => {
            if tag == 1 {
                (BlockHashOrNumber::Number(BlockNumber(word)), end)
            } else if tag == 2 {
                (BlockHashOrNumber::Hash(BlockHash(word)), end)
            } else {
                return None;
            }
        },
    };
    if pos1 >= bytes.len() {
        return None;
    }
    let direction_tag = bytes[pos1];
    if direction_tag > 1 {
        return None;
    }
    let direction = if direction_tag == 0 {
        Direction::Forward
    } else {
        Direction::Backward
    };
    let (limit, pos2): (u64, usize) = match decode_u64(bytes, pos1 + 1) {
        None => {
            return None;
        },
        Some(p) => p,
    };
    let (step, pos3): (u64, usize) = match decode_u64(bytes, pos2) {
        None => {
            return None;
        },
        Some(p) => p,
    };
    if pos3 != bytes.len() {
        return None;
    }
    Some(InternalQuery { start_block, direction, limit, step })
}

/// Encoding a query and decoding the bytes yields the query back.
pub proof fn lemma_query_round_trip(q: InternalQuery)
    ensures
        spec_decode_query(spec_encode_query(q)) == Some(q),
{
    let s = spec_encode_query(q);
    let start_word: u64 = match q.start_block {
        BlockHashOrNumber::Number(n) => n.0,
        BlockHashOrNumber::Hash(h) => h.0,
    };
    let tag: u8 = match q.start_block {
        BlockHashOrNumber::Number(_) => 1u8,
        BlockHashOrNumber::Hash(_) => 2u8,
    };
    let mid = seq![direction_byte(q.direction)] + spec_varint(q.limit as nat) + spec_varint(
        q.step as nat,
    );
    assert(s =~= seq![tag] + spec_varint(start_word as nat) + mid);
    lemma_varint_round_trip(seq![tag], start_word as nat, mid);
    let pos1 = 1 + spec_varint(start_word as nat).len() as int;
    assert(s[pos1] == direction_byte(q.direction)) by {
        assert(mid[0] == direction_byte(q.direction));
    }
    let prefix2 = seq![tag] + spec_varint(start_word as nat) + seq![direction_byte(q.direction)];
    assert(s =~= prefix2 + spec_varint(q.limit as nat) + spec_varint(q.step as nat));
    lemma_varint_round_trip(prefix2, q.limit as nat, spec_varint(q.step as nat));
    let prefix3 = prefix2 + spec_varint(q.limit as nat);
    assert(s =~= prefix3 + spec_varint(q.step as nat) + Seq::<u8>::empty());
    lemma_varint_round_trip(prefix3, q.step as nat, Seq::<u8>::empty());
}

/// The encoding of key-value entries, in order: each as two varints.
pub open spec fn spec_encode_pairs(s: Seq<(u64, u64)>) -> Seq<u8>
    decreases s.len(),
{
    if s.len() == 0 {
        Seq::empty()
    } else {
        spec_varint(s[0].0 as nat) + spec_varint(s[0].1 as nat) + spec_encode_pairs(
            s.drop_first(),
        )
    }
}

/// The encoding of a key-value section: the entry count, then the entries.
pub open spec fn spec_encode_pair_list(s: Seq<(u64, u64)>) -> Seq<u8> {
    spec_varint(s.len() as nat) + spec_encode_pairs(s)
}

/// Reads `count` key-value entries at the position.
pub open spec fn spec_decode_pairs(s: Seq<u8>, pos: int, count: nat) -> Option<
    (Seq<(u64, u64)>, int),
>
    decreases count,
{
    if count == 0 {
        Some((Seq::empty(), pos))
    } else {
        match spec_decode_u64(s, pos) {
            None => None,
            Some((key, pos1)) => match spec_decode_u64(s, pos1) {
                None => None,
                Some((value, pos2)) => match spec_decode_pairs(s, pos2, (count - 1) as nat) {
                    None => None,
                    Some((rest, end)) => Some((seq![(key, value)] + rest, end)),
                },
            },
        }
    }
}

/// Encoding entries splits over concatenation.
pub proof fn lemma_encode_pairs_concat(a: Seq<(u64, u64)>, b: Seq<(u64, u64)>)
    ensures
        spec_encode_pairs(a + b) == spec_encode_pairs(a) + spec_encode_pairs(b),
    decreases a.len(),
{
    if a.len() == 0 {
        assert(a + b =~= b);
        assert(spec_encode_pairs(a) + spec_encode_pairs(b) =~= spec_encode_pairs(b));
    } else {
        assert((a + b).drop_first() =~= a.drop_first() + b);
        assert((a + b)[0] == a[0]);
        lemma_encode_pairs_concat(a.drop_first(), b);
        assert(spec_encode_pairs(a + b) =~= spec_encode_pairs(a) + spec_encode_pairs(b));
    }
}

/// Decoding entries right after any prefix recovers the encoded entries.
pub proof fn lemma_pairs_round_trip(prefix: Seq<u8>, entries: Seq<(u64, u64)>, suffix: Seq<u8>)
    ensures
        spec_decode_pairs(
            prefix + spec_encode_pairs(entries) + suffix,
            prefix.len() as int,
            entries.len(),
        ) == Some((entries, (prefix.len() + spec_encode_pairs(entries).len()) as int)),
    decreases entries.len(),
{
    let s = prefix + spec_encode_pairs(entries) + suffix;
    if entries.len() == 0 {
        assert(spec_decode_pairs(s, prefix.len() as int, 0) == Some(
            (Seq::<(u64, u64)>::empty(), prefix.len() as int),
        ));
        assert(Seq::<(u64, u64)>::empty() =~= entries);
    } else {
        let key = entries[0].0;
        let value = entries[0].1;
        let key_bytes = spec_varint(key as nat);
        let value_bytes = spec_varint(value as nat);
        let rest_bytes = spec_encode_pairs(entries.drop_first());
        assert(spec_encode_pairs(entries) == key_bytes + value_bytes + rest_bytes);
        assert(s =~= prefix + key_bytes + (value_bytes + rest_bytes + suffix));
        lemma_varint_round_trip(prefix, key as nat, value_bytes + rest_bytes + suffix);
        assert(spec_decode_u64(s, prefix.len() as int) == Some(
            (key, (prefix.len() + key_bytes.len()) as int),
        ));
        let prefix1 = prefix + key_bytes;
        assert(s =~= prefix1 + value_bytes + (rest_bytes + suffix));
        lemma_varint_round_trip(prefix1, value as nat, rest_bytes + suffix);
        let prefix2 = prefix1 + value_bytes;
        assert(s =~= prefix2 + rest_bytes + suffix);
        lemma_pairs_round_trip(prefix2, entries.drop_first(), suffix);
        assert(spec_decode_pairs(s, prefix2.len() as int, entries.drop_first().len()) == Some(
            (entries.drop_first(), (prefix2.len() + rest_bytes.len()) as int),
        ));
        assert(seq![(key, value)] + entries.drop_first() =~= entries);
    }
}

/// Appends the encoding of a key-value section: the count, then the entries.
pub fn encode_pair_list(entries: &Vec<(u64, u64)>, out: &mut Vec<u8>)
    ensures
        final(out)@ == old(out)@ + spec_encode_pair_list(entries@),
{
    encode_varint(entries.len() as u64, out);
    let ghost after_count = out@;
    let mut i: usize = 0;
    while i < entries.len()
        invariant
            i <= entries@.len(),
            out@ == after_count + spec_encode_pairs(entries@.subrange(0, i as int)),
            after_count == old(out)@ + spec_varint(entries@.len() as nat),
        decreases entries@.len() - i,
    {
        let ghost before = out@;
        encode_varint(entries[i].0, out);
        encode_varint(entries[i].1, out);
        proof {
            assert(entries@.subrange(0, i + 1) =~= entries@.subrange(0, i as int) + seq![
                entries@[i as int],
            ]);
            lemma_encode_pairs_concat(entries@.subrange(0, i as int), seq![entries@[i as int]]);
            assert(spec_encode_pairs(seq![entries@[i as int]]) =~= spec_varint(
                entries@[i as int].0 as nat,
            ) + spec_varint(entries@[i as int].1 as nat)) by {
                assert(seq![entries@[i as int]][0] == entries@[i as int]);
                assert(seq![entries@[i as int]].drop_first() =~= Seq::<(u64, u64)>::empty());
                assert(spec_encode_pairs(Seq::<(u64, u64)>::empty()) == Seq::<u8>::empty());
            }
            assert(out@ =~= after_count + spec_encode_pairs(entries@.subrange(0, i + 1)));
        }
        i = i + 1;
    }
    proof {
        assert(entries@.subrange(0, entries@.len() as int) =~= entries@);
        assert(final(out)@ =~= old(out)@ + spec_encode_pair_list(entries@));
    }
}

/// Reads `count` key-value entries at the position.
pub fn decode_pairs(s: &Vec<u8>, pos: usize, count: u64) -> (r: Option<(Vec<(u64, u64)>, usize)>)
    requires
        pos <= s@.len(),
    ensures
        match r {
            Some((entries, end)) => spec_decode_pairs(s@, pos as int, count as nat) == Some(
                (entries@, end as int),
            ) && pos <= end <= s@.len(),
            None => spec_decode_pairs(s@, pos as int, count as nat) is None,
        },
{
    let mut entries: Vec<(u64, u64)> = Vec::new();
    let mut p: usize = pos;
    let mut remaining: u64 = count;
    loop
        invariant
            pos <= p <= s@.len(),
            remaining <= count,
            ({
                match spec_decode_pairs(s@, p as int, remaining as nat) {
                    Some((rest, end)) => spec_decode_pairs(s@, pos as int, count as nat) == Some(
                        (entries@ + rest, end),
                    ),
                    None => spec_decode_pairs(s@, pos as int, count as nat) is None,
                }
            }),
        ensures
            remaining == 0,
            spec_decode_pairs(s@, pos as int, count as nat) == (match spec_decode_pairs(
                s@,
                p as int,
                0,
            ) {
                Some((rest, end)) => Some((entries@ + rest, end)),
                None => None,
            }),
            pos <= p <= s@.len(),
        decreases remaining,
    {
        if remaining == 0 {
            break;
        }
        let (key, p1): (u64, usize) = match decode_u64(s, p) {
            None => {
                return None;
            },
            Some(x) => x,
        };
        let (value, p2): (u64, usize) = match decode_u64(s, p1) {
            None => {
                return None;
            },
            Some(x) => x,
        };
        let ghost entries0 = entries@;
        entries.push((key, value));
        proof {
            match spec_decode_pairs(s@, p2 as int, (remaining - 1) as nat) {
                Some((rest, end)) => {
                    assert(entries0 + (seq![(key, value)] + rest) =~= entries@ + rest);
                },
                None => {},
            }
        }
        p = p2;
        remaining = remaining - 1;
    }
    proof {
        assert(entries@ + Seq::<(u64, u64)>::empty() =~= entries@);
    }
    Some((entries, p))
}

/// The encoding of plain words, in order: each as one varint.
pub open spec fn spec_encode_u64s(s: Seq<u64>) -> Seq<u8>
    decreases s.len(),
{
    if s.len() == 0 {
        Seq::empty()
    } else {
        spec_varint(s[0] as nat) + spec_encode_u64s(s.drop_first())
    }
}

/// Reads `count` plain words at the position.
pub open spec fn spec_decode_u64s(s: Seq<u8>, pos: int, count: nat) -> Option<(Seq<u64>, int)>
    decreases count,
{
    if count == 0 {
        Some((Seq::empty(), pos))
    } else {
        match spec_decode_u64(s, pos) {
            None => None,
            Some((word, pos1)) => match spec_decode_u64s(s, pos1, (count - 1) as nat) {
                None => None,
                Some((rest, end)) => Some((seq![word] + rest, end)),
            },
        }
    }
}

/// Encoding words splits over concatenation.
pub proof fn lemma_encode_u64s_concat(a: Seq<u64>, b: Seq<u64>)
    ensures
        spec_encode_u64s(a + b) == spec_encode_u64s(a) + spec_encode_u64s(b),
    decreases a.len(),
{
    if a.len() == 0 {
        assert(a + b =~= b);
        assert(spec_encode_u64s(a) + spec_encode_u64s(b) =~= spec_encode_u64s(b));
    } else {
        assert((a + b).drop_first() =~= a.drop_first() + b);
        assert((a + b)[0] == a[0]);
        lemma_encode_u64s_concat(a.drop_first(), b);
        assert(spec_encode_u64s(a + b) =~= spec_encode_u64s(a) + spec_encode_u64s(b));
    }
}

/// Decoding words right after any prefix recovers the encoded words.
pub proof fn lemma_u64s_round_trip(prefix: Seq<u8>, words: Seq<u64>, suffix: Seq<u8>)
    ensures
        spec_decode_u64s(
            prefix + spec_encode_u64s(words) + suffix,
            prefix.len() as int,
            words.len(),
        ) == Some((words, (prefix.len() + spec_encode_u64s(words).len()) as int)),
    decreases words.len(),
{
    let s = prefix + spec_encode_u64s(words) + suffix;
    if words.len() == 0 {
        assert(Seq::<u64>::empty() =~= words);
    } else {
        let word_bytes = spec_varint(words[0] as nat);
        let rest_bytes = spec_encode_u64s(words.drop_first());
        assert(spec_encode_u64s(words) == word_bytes + rest_bytes);
        assert(s =~= prefix + word_bytes + (rest_bytes + suffix));
        lemma_varint_round_trip(prefix, words[0] as nat, rest_bytes + suffix);
        let prefix1 = prefix + word_bytes;
        assert(s =~= prefix1 + rest_bytes + suffix);
        lemma_u64s_round_trip(prefix1, words.drop_first(), suffix);
        assert(seq![words[0]] + words.drop_first() =~= words);
    }
}

/// Appends the encoding of a word section: the count, then the words.
pub fn encode_u64_list(words: &Vec<u64>, out: &mut Vec<u8>)
    ensures
        final(out)@ == old(out)@ + spec_varint(words@.len() as nat) + spec_encode_u64s(words@),
{
    encode_varint(words.len() as u64, out);
    let ghost after_count = out@;
    let mut i: usize = 0;
    while i < words.len()
        invariant
            i <= words@.len(),
            out@ == after_count + spec_encode_u64s(words@.subrange(0, i as int)),
            after_count == old(out)@ + spec_varint(words@.len() as nat),
        decreases words@.len() - i,
    {
        encode_varint(words[i], out);
        proof {
            assert(words@.subrange(0, i + 1) =~= words@.subrange(0, i as int) + seq![
                words@[i as int],
            ]);
            lemma_encode_u64s_concat(words@.subrange(0, i as int), seq![words@[i as int]]);
            assert(spec_encode_u64s(seq![words@[i as int]]) =~= spec_varint(
                words@[i as int] as nat,
            )) by {
                assert(seq![words@[i as int]][0] == words@[i as int]);
                assert(seq![words@[i as int]].drop_first() =~= Seq::<u64>::empty());
                assert(spec_encode_u64s(Seq::<u64>::empty()) == Seq::<u8>::empty());
            }
            assert(out@ =~= after_count + spec_encode_u64s(words@.subrange(0, i + 1)));
        }
        i = i + 1;
    }
    proof {
        assert(words@.subrange(0, words@.len() as int) =~= words@);
        assert(final(out)@ =~= old(out)@ + spec_varint(words@.len() as nat) + spec_encode_u64s(
            words@,
        ));
    }
}

/// Reads `count` plain words at the position.
pub fn decode_u64s(s: &Vec<u8>, pos: usize, count: u64) -> (r: Option<(Vec<u64>, usize)>)
    requires
        pos <= s@.len(),
    ensures
        match r {
            Some((words, end)) => spec_decode_u64s(s@, pos as int, count as nat) == Some(
                (words@, end as int),
            ) && pos <= end <= s@.len(),
            None => spec_decode_u64s(s@, pos as int, count as nat) is None,
        },
{
    let mut words: Vec<u64> = Vec::new();
    let mut p: usize = pos;
    let mut remaining: u64 = count;
    loop
        invariant
            pos <= p <= s@.len(),
            remaining <= count,
            ({
                match spec_decode_u64s(s@, p as int, remaining as nat) {
                    Some((rest, end)) => spec_decode_u64s(s@, pos as int, count as nat) == Some(
                        (words@ + rest, end),
                    ),
                    None => spec_decode_u64s(s@, pos as int, count as nat) is None,
                }
            }),
        ensures
            remaining == 0,
            spec_decode_u64s(s@, pos as int, count as nat) == (match spec_decode_u64s(
                s@,
                p as int,
                0,
            ) {
                Some((rest, end)) => Some((words@ + rest, end)),
                None => None,
            }),
            pos <= p <= s@.len(),
        decreases remaining,
    {
        if remaining == 0 {
            break;
        }
        let (word, p1): (u64, usize) = match decode_u64(s, p) {
            None => {
                return None;
            },
            Some(x) => x,
        };
        let ghost words0 = words@;
        words.push(word);
        proof {
            match spec_decode_u64s(s@, p1 as int, (remaining - 1) as nat) {
                Some((rest, end)) => {
                    assert(words0 + (seq![word] + rest) =~= words@ + rest);
                },
                None => {},
            }
        }
        p = p1;
        remaining = remaining - 1;
    }
    proof {
        assert(words@ + Seq::<u64>::empty() =~= words@);
    }
    Some((words, p))
}

/// The encoding of per-contract storage sections, in order: the contract, then
/// its cells as a key-value section.
pub open spec fn spec_encode_storage(s: Seq<(u64, Vec<(u64, u64)>)>) -> Seq<u8>
    decreases s.len(),
{
    if s.len() == 0 {
        Seq::empty()
    } else {
        spec_varint(s[0].0 as nat) + spec_encode_pair_list(s[0].1@) + spec_encode_storage(
            s.drop_first(),
        )
    }
}

/// Reads `count` per-contract storage sections at the position, as views.
pub open spec fn spec_decode_storage(s: Seq<u8>, pos: int, count: nat) -> Option<
    (Seq<(u64, Seq<(u64, u64)>)>, int),
>
    decreases count,
{
    if count == 0 {
        Some((Seq::empty(), pos))
    } else {
        match spec_decode_u64(s, pos) {
            None => None,
            Some((contract, pos1)) => match spec_decode_u64(s, pos1) {
                None => None,
                Some((cell_count, pos2)) => match spec_decode_pairs(s, pos2, cell_count as nat) {
                    None => None,
                    Some((cells, pos3)) => match spec_decode_storage(s, pos3, (count - 1) as nat) {
                        None => None,
                        Some((rest, end)) => Some((seq![(contract, cells)] + rest, end)),
                    },
                },
            },
        }
    }
}

/// The per-contract storage sections of a diff, as views.
pub open spec fn storage_views(s: Seq<(u64, Vec<(u64, u64)>)>) -> Seq<(u64, Seq<(u64, u64)>)> {
    s.map_values(|p: (u64, Vec<(u64, u64)>)| (p.0, p.1@))
}

/// The encoding of per-contract storage sections, as views.
pub open spec fn spec_encode_storage_views(s: Seq<(u64, Seq<(u64, u64)>)>) -> Seq<u8>
    decreases s.len(),
{
    if s.len() == 0 {
        Seq::empty()
    } else {
        spec_varint(s[0].0 as nat) + spec_varint(s[0].1.len() as nat) + spec_encode_pairs(s[0].1)
            + spec_encode_storage_views(s.drop_first())
    }
}

/// Encoding storage sections splits over concatenation.
pub proof fn lemma_encode_storage_concat(a: Seq<(u64, Seq<(u64, u64)>)>, b: Seq<
    (u64, Seq<(u64, u64)>)
>)
    ensures
        spec_encode_storage_views(a + b) == spec_encode_storage_views(a)
            + spec_encode_storage_views(b),
    decreases a.len(),
{
    if a.len() == 0 {
        assert(a + b =~= b);
        assert(spec_encode_storage_views(a) + spec_encode_storage_views(b)
            =~= spec_encode_storage_views(b));
    } else {
        assert((a + b).drop_first() =~= a.drop_first() + b);
        assert((a + b)[0] == a[0]);
        lemma_encode_storage_concat(a.drop_first(), b);
        assert(spec_encode_storage_views(a + b) =~= spec_encode_storage_views(a)
            + spec_encode_storage_views(b));
    }
}

/// Decoding storage sections right after any prefix recovers the encoded views.
///
/// The sections' cell counts must each fit a machine word, which every `Vec`
/// of cells does.
#[verifier::rlimit(60)]
pub proof fn lemma_storage_round_trip(prefix: Seq<u8>, sections: Seq<(u64, Seq<(u64, u64)>)>,
    suffix: Seq<u8>)
    requires
        forall|i: int| 0 <= i < sections.len() ==> (#[trigger] sections[i]).1.len() <= u64::MAX,
    ensures
        spec_decode_storage(
            prefix + spec_encode_storage_views(sections) + suffix,
            prefix.len() as int,
            sections.len(),
        ) == Some((sections, (prefix.len() + spec_encode_storage_views(sections).len()) as int)),
    decreases sections.len(),
{
    let s = prefix + spec_encode_storage_views(sections) + suffix;
    if sections.len() == 0 {
        assert(Seq::<(u64, Seq<(u64, u64)>)>::empty() =~= sections);
    } else {
        let contract = sections[0].0;
        let cells = sections[0].1;
        let contract_bytes = spec_varint(contract as nat);
        let count_bytes = spec_varint(cells.len() as nat);
        let cell_bytes = spec_encode_pairs(cells);
        let rest_bytes = spec_encode_storage_views(sections.drop_first());
        assert(spec_encode_storage_views(sections) == contract_bytes + count_bytes + cell_bytes
            + rest_bytes);
        assert(s =~= prefix + contract_bytes + (count_bytes + cell_bytes + rest_bytes + suffix));
        lemma_varint_round_trip(prefix, contract as nat, count_bytes + cell_bytes + rest_bytes
            + suffix);
        let prefix1 = prefix + contract_bytes;
        assert(s =~= prefix1 + count_bytes + (cell_bytes + rest_bytes + suffix));
        lemma_varint_round_trip(prefix1, cells.len() as nat, cell_bytes + rest_bytes + suffix);
        let prefix2 = prefix1 + count_bytes;
        assert(s =~= prefix2 + cell_bytes + (rest_bytes + suffix));
        lemma_pairs_round_trip(prefix2, cells, rest_bytes + suffix);
        let prefix3 = prefix2 + cell_bytes;
        assert(s =~= prefix3 + rest_bytes + suffix);
        lemma_storage_round_trip(prefix3, sections.drop_first(), suffix);
        assert(seq![(contract, cells)] + sections.drop_first() =~= sections);
    }
}

/// Appends the encoding of the storage sections: the section count, then each
/// contract with its cells.
pub fn encode_storage(sections: &Vec<(u64, Vec<(u64, u64)>)>, out: &mut Vec<u8>)
    ensures
        final(out)@ == old(out)@ + spec_varint(sections@.len() as nat)
            + spec_encode_storage_views(storage_views(sections@)),
{
    encode_varint(sections.len() as u64, out);
    let ghost after_count = out@;
    let mut i: usize = 0;
    while i < sections.len()
        invariant
            i <= sections@.len(),
            out@ == after_count + spec_encode_storage_views(
                storage_views(sections@.subrange(0, i as int)),
            ),
            after_count == old(out)@ + spec_varint(sections@.len() as nat),
        decreases sections@.len() - i,
    {
        encode_varint(sections[i].0, out);
        encode_pair_list(&sections[i].1, out);
        proof {
            assert(sections@.subrange(0, i + 1) =~= sections@.subrange(0, i as int) + seq![
                sections@[i as int],
            ]);
            assert(storage_views(sections@.subrange(0, i + 1)) =~= storage_views(
                sections@.subrange(0, i as int),
            ) + seq![(sections@[i as int].0, sections@[i as int].1@)]);
            lemma_encode_storage_concat(
                storage_views(sections@.subrange(0, i as int)),
                seq![(sections@[i as int].0, sections@[i as int].1@)],
            );
            assert(spec_encode_storage_views(
                seq![(sections@[i as int].0, sections@[i as int].1@)],
            ) =~= spec_varint(sections@[i as int].0 as nat) + spec_varint(
                sections@[i as int].1@.len() as nat,
            ) + spec_encode_pairs(sections@[i as int].1@)) by {
                let single = seq![(sections@[i as int].0, sections@[i as int].1@)];
                assert(single[0] == (sections@[i as int].0, sections@[i as int].1@));
                assert(single.drop_first() =~= Seq::<(u64, Seq<(u64, u64)>)>::empty());
                assert(spec_encode_storage_views(Seq::<(u64, Seq<(u64, u64)>)>::empty())
                    == Seq::<u8>::empty());
            }
            assert(out@ =~= after_count + spec_encode_storage_views(
                storage_views(sections@.subrange(0, i + 1)),
            ));
        }
        i = i + 1;
    }
    proof {
        assert(sections@.subrange(0, sections@.len() as int) =~= sections@);
        assert(final(out)@ =~= old(out)@ + spec_varint(sections@.len() as nat)
            + spec_encode_storage_views(storage_views(sections@)));
    }
}

/// Reads `count` per-contract storage sections at the position.
pub fn decode_storage(s: &Vec<u8>, pos: usize, count: u64) -> (r: Option<
    (Vec<(u64, Vec<(u64, u64)>)>, usize),
>)
    requires
        pos <= s@.len(),
    ensures
        match r {
            Some((sections, end)) => spec_decode_storage(s@, pos as int, count as nat) == Some(
                (storage_views(sections@), end as int),
            ) && pos <= end <= s@.len(),
            None => spec_decode_storage(s@, pos as int, count as nat) is None,
        },
{
    let mut sections: Vec<(u64, Vec<(u64, u64)>)> = Vec::new();
    let mut p: usize = pos;
    let mut remaining: u64 = count;
    loop
        invariant
            pos <= p <= s@.len(),
            remaining <= count,
            ({
                match spec_decode_storage(s@, p as int, remaining as nat) {
                    Some((rest, end)) => spec_decode_storage(s@, pos as int, count as nat) == Some(
                        (storage_views(sections@) + rest, end),
                    ),
                    None => spec_decode_storage(s@, pos as int, count as nat) is None,
                }
            }),
        ensures
            remaining == 0,
            spec_decode_storage(s@, pos as int, count as nat) == Some(
                (storage_views(sections@), p as int),
            ),
            pos <= p <= s@.len(),
        decreases remaining,
    {
        if remaining == 0 {
            proof {
                assert(storage_views(sections@) + Seq::<(u64, Seq<(u64, u64)>)>::empty()
                    =~= storage_views(sections@));
            }
            break;
        }
        let (contract, p1): (u64, usize) = match decode_u64(s, p) {
            None => {
                return None;
            },
            Some(x) => x,
        };
        let (cell_count, p2): (u64, usize) = match decode_u64(s, p1) {
            None => {
                return None;
            },
            Some(x) => x,
        };
        let (cells, p3): (Vec<(u64, u64)>, usize) = match decode_pairs(s, p2, cell_count) {
            None => {
                return None;
            },
            Some(x) => x,
        };
        let ghost sections0 = sections@;
        let ghost cells_view = cells@;
        sections.push((contract, cells));
        proof {
            match spec_decode_storage(s@, p3 as int, (remaining - 1) as nat) {
                Some((rest, end)) => {
                    assert(storage_views(sections@) =~= storage_views(sections0) + seq![
                        (contract, cells_view),
                    ]);
                    assert(storage_views(sections0) + (seq![(contract, cells_view)] + rest)
                        =~= storage_views(sections@) + rest);
                },
                None => {},
            }
        }
        p = p3;
        remaining = remaining - 1;
    }
    Some((sections, p))
}

/// Reads a key-value section: the count, then that many entries.
pub open spec fn spec_decode_pair_list(s: Seq<u8>, pos: int) -> Option<(Seq<(u64, u64)>, int)> {
    match spec_decode_u64(s, pos) {
        None => None,
        Some((count, pos1)) => spec_decode_pairs(s, pos1, count as nat),
    }
}

/// Decoding a key-value section right after any prefix recovers the entries.
pub proof fn lemma_pair_list_round_trip(prefix: Seq<u8>, entries: Seq<(u64, u64)>, suffix: Seq<
    u8,
>)
    requires
        entries.len() <= u64::MAX,
    ensures
        spec_decode_pair_list(prefix + spec_encode_pair_list(entries) + suffix, prefix.len() as int)
            == Some((entries, (prefix.len() + spec_encode_pair_list(entries).len()) as int)),
{
    let count_bytes = spec_varint(entries.len() as nat);
    let entry_bytes = spec_encode_pairs(entries);
    let s = prefix + spec_encode_pair_list(entries) + suffix;
    assert(s =~= prefix + count_bytes + (entry_bytes + suffix));
    lemma_varint_round_trip(prefix, entries.len() as nat, entry_bytes + suffix);
    let prefix1 = prefix + count_bytes;
    assert(s =~= prefix1 + entry_bytes + suffix);
    lemma_pairs_round_trip(prefix1, entries, suffix);
}

/// The views of a diff's six fields.
pub open spec fn state_diff_views(d: ThinStateDiff) -> (
    Seq<(u64, u64)>,
    Seq<(u64, Seq<(u64, u64)>)>,
    Seq<(u64, u64)>,
    Seq<u64>,
    Seq<(u64, u64)>,
    Seq<(u64, u64)>,
) {
    (
        d.deployed_contracts@,
        storage_views(d.storage_diffs@),
        d.declared_classes@,
        d.deprecated_declared_classes@,
        d.nonces@,
        d.replaced_classes@,
    )
}

/// The encoding of a state-diff part: its six fields in order, each as a
/// counted section.
pub open spec fn spec_encode_state_diff(d: ThinStateDiff) -> Seq<u8> {
    spec_encode_pair_list(d.deployed_contracts@) + spec_varint(d.storage_diffs@.len() as nat)
        + spec_encode_storage_views(storage_views(d.storage_diffs@)) + spec_encode_pair_list(
        d.declared_classes@,
    ) + spec_varint(d.deprecated_declared_classes@.len() as nat) + spec_encode_u64s(
        d.deprecated_declared_classes@,
    ) + spec_encode_pair_list(d.nonces@) + spec_encode_pair_list(d.replaced_classes@)
}

/// Reads the first half of a state-diff part: deployed contracts and storage.
pub open spec fn spec_decode_sd_head(s: Seq<u8>, pos: int) -> Option<
    ((Seq<(u64, u64)>, Seq<(u64, Seq<(u64, u64)>)>), int),
> {
    match spec_decode_pair_list(s, pos) {
        None => None,
        Some((deployed, pos1)) => match spec_decode_u64(s, pos1) {
            None => None,
            Some((section_count, pos2)) => match spec_decode_storage(
                s,
                pos2,
                section_count as nat,
            ) {
                None => None,
                Some((storage, pos3)) => Some(((deployed, storage), pos3)),
            },
        },
    }
}

/// Reads the second half of a state-diff part: declared classes, deprecated
/// class hashes, nonces and replaced classes.
pub open spec fn spec_decode_sd_tail(s: Seq<u8>, pos: int) -> Option<
    ((Seq<(u64, u64)>, Seq<u64>, Seq<(u64, u64)>, Seq<(u64, u64)>), int),
> {
    match spec_decode_pair_list(s, pos) {
        None => None,
        Some((declared, pos4)) => match spec_decode_u64(s, pos4) {
            None => None,
            Some((word_count, pos5)) => match spec_decode_u64s(s, pos5, word_count as nat) {
                None => None,
                Some((deprecated, pos6)) => match spec_decode_pair_list(s, pos6) {
                    None => None,
                    Some((nonces, pos7)) => match spec_decode_pair_list(s, pos7) {
                        None => None,
                        Some((replaced, end)) => Some(((declared, deprecated, nonces, replaced), end)),
                    },
                },
            },
        },
    }
}

/// Reads a state-diff part at the position, as views.
pub open spec fn spec_decode_state_diff(s: Seq<u8>, pos: int) -> Option<
    (
        (
            Seq<(u64, u64)>,
            Seq<(u64, Seq<(u64, u64)>)>,
            Seq<(u64, u64)>,
            Seq<u64>,
            Seq<(u64, u64)>,
            Seq<(u64, u64)>,
        ),
        int,
    ),
> {
    match spec_decode_sd_head(s, pos) {
        None => None,
        Some((head, pos3)) => match spec_decode_sd_tail(s, pos3) {
            None => None,
            Some((tail, end)) => Some(
                ((head.0, head.1, tail.0, tail.1, tail.2, tail.3), end),
            ),
        },
    }
}

/// The first half of a part's encoding.
pub open spec fn spec_encode_sd_head(d: ThinStateDiff) -> Seq<u8> {
    spec_encode_pair_list(d.deployed_contracts@) + spec_varint(d.storage_diffs@.len() as nat)
        + spec_encode_storage_views(storage_views(d.storage_diffs@))
}

/// The second half of a part's encoding.
pub open spec fn spec_encode_sd_tail(d: ThinStateDiff) -> Seq<u8> {
    spec_encode_pair_list(d.declared_classes@) + spec_varint(
        d.deprecated_declared_classes@.len() as nat,
    ) + spec_encode_u64s(d.deprecated_declared_classes@) + spec_encode_pair_list(d.nonces@)
        + spec_encode_pair_list(d.replaced_classes@)
}

/// Decoding the first half right after any prefix recovers its views.
#[verifier::rlimit(60)]
proof fn lemma_sd_head_round_trip(prefix: Seq<u8>, d: ThinStateDiff, suffix: Seq<u8>)
    requires
        d.deployed_contracts@.len() <= u64::MAX,
        d.storage_diffs@.len() <= u64::MAX,
        forall|i: int|
            0 <= i < d.storage_diffs@.len() ==> (#[trigger] d.storage_diffs@[i]).1@.len()
                <= u64::MAX,
    ensures
        spec_decode_sd_head(prefix + spec_encode_sd_head(d) + suffix, prefix.len() as int) == Some(
            (
                (d.deployed_contracts@, storage_views(d.storage_diffs@)),
                (prefix.len() + spec_encode_sd_head(d).len()) as int,
            ),
        ),
{
    let s = prefix + spec_encode_sd_head(d) + suffix;
    let b1 = spec_encode_pair_list(d.deployed_contracts@);
    let b2 = spec_varint(d.storage_diffs@.len() as nat);
    let b3 = spec_encode_storage_views(storage_views(d.storage_diffs@));
    assert(s =~= prefix + b1 + (b2 + b3 + suffix));
    lemma_pair_list_round_trip(prefix, d.deployed_contracts@, b2 + b3 + suffix);
    let p1 = prefix + b1;
    assert(s =~= p1 + b2 + (b3 + suffix));
    lemma_varint_round_trip(p1, d.storage_diffs@.len() as nat, b3 + suffix);
    let p2 = p1 + b2;
    assert(s =~= p2 + b3 + suffix);
    assert(storage_views(d.storage_diffs@).len() == d.storage_diffs@.len());
    assert forall|i: int| 0 <= i < storage_views(d.storage_diffs@).len() implies (
    #[trigger] storage_views(d.storage_diffs@)[i]).1.len() <= u64::MAX by {
        assert(storage_views(d.storage_diffs@)[i] == (
            d.storage_diffs@[i].0,
            d.storage_diffs@[i].1@,
        ));
    }
    lemma_storage_round_trip(p2, storage_views(d.storage_diffs@), suffix);
}

/// Decoding the second half right after any prefix recovers its views.
#[verifier::rlimit(60)]
proof fn lemma_sd_tail_round_trip(prefix: Seq<u8>, d: ThinStateDiff, suffix: Seq<u8>)
    requires
        d.declared_classes@.len() <= u64::MAX,
        d.deprecated_declared_classes@.len() <= u64::MAX,
        d.nonces@.len() <= u64::MAX,
        d.replaced_classes@.len() <= u64::MAX,
    ensures
        spec_decode_sd_tail(prefix + spec_encode_sd_tail(d) + suffix, prefix.len() as int) == Some(
            (
                (
                    d.declared_classes@,
                    d.deprecated_declared_classes@,
                    d.nonces@,
                    d.replaced_classes@,
                ),
                (prefix.len() + spec_encode_sd_tail(d).len()) as int,
            ),
        ),
{
    let s = prefix + spec_encode_sd_tail(d) + suffix;
    let b4 = spec_encode_pair_list(d.declared_classes@);
    let b5 = spec_varint(d.deprecated_declared_classes@.len() as nat);
    let b6 = spec_encode_u64s(d.deprecated_declared_classes@);
    let b7 = spec_encode_pair_list(d.nonces@);
    let b8 = spec_encode_pair_list(d.replaced_classes@);
    assert(s =~= prefix + b4 + (b5 + b6 + b7 + b8 + suffix));
    lemma_pair_list_round_trip(prefix, d.declared_classes@, b5 + b6 + b7 + b8 + suffix);
    let p4 = prefix + b4;
    assert(s =~= p4 + b5 + (b6 + b7 + b8 + suffix));
    lemma_varint_round_trip(p4, d.deprecated_declared_classes@.len() as nat, b6 + b7 + b8
        + suffix);
    let p5 = p4 + b5;
    assert(s =~= p5 + b6 + (b7 + b8 + suffix));
    lemma_u64s_round_trip(p5, d.deprecated_declared_classes@, b7 + b8 + suffix);
    let p6 = p5 + b6;
    assert(s =~= p6 + b7 + (b8 + suffix));
    lemma_pair_list_round_trip(p6, d.nonces@, b8 + suffix);
    let p7 = p6 + b7;
    assert(s =~= p7 + b8 + suffix);
    lemma_pair_list_round_trip(p7, d.replaced_classes@, suffix);
}

/// Decoding a state-diff part right after any prefix recovers its views.
#[verifier::rlimit(60)]
pub proof fn lemma_state_diff_round_trip(prefix: Seq<u8>, d: ThinStateDiff, suffix: Seq<u8>)
    requires
        d.deployed_contracts@.len() <= u64::MAX,
        d.storage_diffs@.len() <= u64::MAX,
        forall|i: int|
            0 <= i < d.storage_diffs@.len() ==> (#[trigger] d.storage_diffs@[i]).1@.len()
                <= u64::MAX,
        d.declared_classes@.len() <= u64::MAX,
        d.deprecated_declared_classes@.len() <= u64::MAX,
        d.nonces@.len() <= u64::MAX,
        d.replaced_classes@.len() <= u64::MAX,
    ensures
        spec_decode_state_diff(prefix + spec_encode_state_diff(d) + suffix, prefix.len() as int)
            == Some(
            (state_diff_views(d), (prefix.len() + spec_encode_state_diff(d).len()) as int),
        ),
{
    let s = prefix + spec_encode_state_diff(d) + suffix;
    assert(spec_encode_state_diff(d) =~= spec_encode_sd_head(d) + spec_encode_sd_tail(d));
    assert(s =~= prefix + spec_encode_sd_head(d) + (spec_encode_sd_tail(d) + suffix));
    lemma_sd_head_round_trip(prefix, d, spec_encode_sd_tail(d) + suffix);
    let p3 = prefix + spec_encode_sd_head(d);
    assert(s =~= p3 + spec_encode_sd_tail(d) + suffix);
    lemma_sd_tail_round_trip(p3, d, suffix);
}

/// Appends the encoding of a state-diff part.
pub fn encode_state_diff(d: &ThinStateDiff, out: &mut Vec<u8>)
    ensures
        final(out)@ == old(out)@ + spec_encode_state_diff(*d),
{
    encode_pair_list(&d.deployed_contracts, out);
    encode_storage(&d.storage_diffs, out);
    encode_pair_list(&d.declared_classes, out);
    encode_u64_list(&d.deprecated_declared_classes, out);
    encode_pair_list(&d.nonces, out);
    encode_pair_list(&d.replaced_classes, out);
    proof {
        assert(final(out)@ =~= old(out)@ + spec_encode_state_diff(*d));
    }
}

/// Reads a key-value section at the position.
pub fn decode_pair_list(s: &Vec<u8>, pos: usize) -> (r: Option<(Vec<(u64, u64)>, usize)>)
    requires
        pos <= s@.len(),
    ensures
        match r {
            Some((entries, end)) => spec_decode_pair_list(s@, pos as int) == Some(
                (entries@, end as int),
            ) && pos <= end <= s@.len(),
            None => spec_decode_pair_list(s@, pos as int) is None,
        },
{
    match decode_u64(s, pos) {
        None => None,
        Some((count, pos1)) => decode_pairs(s, pos1, count),
    }
}

/// Reads a state-diff part at the position.
pub fn decode_state_diff(s: &Vec<u8>, pos: usize) -> (r: Option<(ThinStateDiff, usize)>)
    requires
        pos <= s@.len(),
    ensures
        match r {
            Some((d, end)) => spec_decode_state_diff(s@, pos as int) == Some(
                (state_diff_views(d), end as int),
            ) && pos <= end <= s@.len(),
            None => spec_decode_state_diff(s@, pos as int) is None,
        },
{
    let (deployed_contracts, pos1) = match decode_pair_list(s, pos) {
        None => {
            return None;
        },
        Some(x) => x,
    };
    let (section_count, pos2) = match decode_u64(s, pos1) {
        None => {
            return None;
        },
        Some(x) => x,
    };
    let (storage_diffs, pos3) = match decode_storage(s, pos2, section_count) {
        None => {
            return None;
        },
        Some(x) => x,
    };
    let (declared_classes, pos4) = match decode_pair_list(s, pos3) {
        None => {
            return None;
        },
        Some(x) => x,
    };
    let (word_count, pos5) = match decode_u64(s, pos4) {
        None => {
            return None;
        },
        Some(x) => x,
    };
    let (deprecated_declared_classes, pos6) = match decode_u64s(s, pos5, word_count) {
        None => {
            return None;
        },
        Some(x) => x,
    };
    let (nonces, pos7) = match decode_pair_list(s, pos6) {
        None => {
            return None;
        },
        Some(x) => x,
    };
    let (replaced_classes, end) = match decode_pair_list(s, pos7) {
        None => {
            return None;
        },
        Some(x) => x,
    };
    Some(
        (
            ThinStateDiff {
                deployed_contracts,
                storage_diffs,
                declared_classes,
                deprecated_declared_classes,
                nonces,
                replaced_classes,
            },
            end,
        ),
    )
}

/// Signatures as key-value entries.
pub open spec fn sig_pairs(sigs: Seq<Signature>) -> Seq<(u64, u64)> {
    sigs.map_values(|g: Signature| (g.r, g.s))
}

/// The encoding of a header with its signatures: block number, block hash, the
/// declared diff length when present, then the signatures as a counted
/// section.
pub open spec fn spec_encode_header(header: BlockHeader, sigs: Seq<Signature>) -> Seq<u8> {
    spec_varint(header.block_number.0 as nat) + spec_varint(header.block_hash.0 as nat) + (
    match header.state_diff_length {
        Some(l) => seq![1u8] + spec_varint(l as nat),
        None => seq![0u8],
    }) + spec_encode_pair_list(sig_pairs(sigs))
}

/// Reads a header with its signatures at the position, as views.
pub open spec fn spec_decode_header(s: Seq<u8>, pos: int) -> Option<
    ((BlockHeader, Seq<(u64, u64)>), int),
> {
    match spec_decode_u64(s, pos) {
        None => None,
        Some((block_number, pos1)) => match spec_decode_u64(s, pos1) {
            None => None,
            Some((block_hash, pos2)) => if pos2 >= s.len() || s[pos2] > 1 {
                None
            } else if s[pos2] == 0 {
                match spec_decode_pair_list(s, pos2 + 1) {
                    None => None,
                    Some((sigs, end)) => Some(
                        (
                            (
                                BlockHeader {
                                    block_number: BlockNumber(block_number),
                                    block_hash: BlockHash(block_hash),
                                    state_diff_length: None,
                                },
                                sigs,
                            ),
                            end,
                        ),
                    ),
                }
            } else {
                match spec_decode_u64(s, pos2 + 1) {
                    None => None,
                    Some((declared, pos3)) => match spec_decode_pair_list(s, pos3) {
                        None => None,
                        Some((sigs, end)) => Some(
                            (
                                (
                                    BlockHeader {
                                        block_number: BlockNumber(block_number),
                                        block_hash: BlockHash(block_hash),
                                        state_diff_length: Some(declared),
                                    },
                                    sigs,
                                ),
                                end,
                            ),
                        ),
                    },
                }
            },
        },
    }
}

/// Decoding a header right after any prefix recovers it and its signatures.
#[verifier::rlimit(100)]
pub proof fn lemma_header_round_trip(prefix: Seq<u8>, header: BlockHeader, sigs: Seq<Signature>,
    suffix: Seq<u8>)
    requires
        sigs.len() <= u64::MAX,
    ensures
        spec_decode_header(prefix + spec_encode_header(header, sigs) + suffix, prefix.len() as int)
            == Some(
            (
                (header, sig_pairs(sigs)),
                (prefix.len() + spec_encode_header(header, sigs).len()) as int,
            ),
        ),
{
    let s = prefix + spec_encode_header(header, sigs) + suffix;
    let b1 = spec_varint(header.block_number.0 as nat);
    let b2 = spec_varint(header.block_hash.0 as nat);
    let b3: Seq<u8> = match header.state_diff_length {
        Some(l) => seq![1u8] + spec_varint(l as nat),
        None => seq![0u8],
    };
    let b4 = spec_encode_pair_list(sig_pairs(sigs));
    assert(s =~= prefix + b1 + (b2 + b3 + b4 + suffix));
    lemma_varint_round_trip(prefix, header.block_number.0 as nat, b2 + b3 + b4 + suffix);
    let p1 = prefix + b1;
    assert(s =~= p1 + b2 + (b3 + b4 + suffix));
    lemma_varint_round_trip(p1, header.block_hash.0 as nat, b3 + b4 + suffix);
    let p2 = p1 + b2;
    match header.state_diff_length {
        None => {
            assert(s[p2.len() as int] == 0) by {
                assert(s =~= p2 + b3 + (b4 + suffix));
            }
            let p3 = p2 + seq![0u8];
            assert(s =~= p3 + b4 + suffix);
            lemma_pair_list_round_trip(p3, sig_pairs(sigs), suffix);
        },
        Some(l) => {
            assert(s[p2.len() as int] == 1) by {
                assert(s =~= p2 + b3 + (b4 + suffix));
            }
            let p3 = p2 + seq![1u8];
            assert(s =~= p3 + spec_varint(l as nat) + (b4 + suffix));
            lemma_varint_round_trip(p3, l as nat, b4 + suffix);
            let p4 = p3 + spec_varint(l as nat);
            assert(s =~= p4 + b4 + suffix);
            lemma_pair_list_round_trip(p4, sig_pairs(sigs), suffix);
        },
    }
}

/// The encoding of one streamed data item: a tagged header, state-diff part,
/// or end-of-stream marker.
pub open spec fn spec_encode_data(d: Data) -> Seq<u8> {
    match d {
        Data::BlockHeaderAndSignature { header, signatures } => seq![1u8] + spec_encode_header(
            header,
            signatures@,
        ),
        Data::StateDiffChunk { part } => seq![2u8] + spec_encode_state_diff(part),
        Data::Fin(data_type) => seq![3u8, data_type_byte(data_type)],
    }
}

/// Whether — and up to where — a data item decodes at the position.
pub open spec fn spec_data_decodes(s: Seq<u8>, pos: int) -> Option<int> {
    if pos >= s.len() {
        None
    } else if s[pos] == 1 {
        match spec_decode_header(s, pos + 1) {
            None => None,
            Some((_decoded, end)) => Some(end),
        }
    } else if s[pos] == 2 {
        match spec_decode_state_diff(s, pos + 1) {
            None => None,
            Some((_decoded, end)) => Some(end),
        }
    } else if s[pos] == 3 {
        if pos + 1 < s.len() && s[pos + 1] <= 1 {
            Some(pos + 2)
        } else {
            None
        }
    } else {
        None
    }
}

/// Appends the encoding of one streamed data item.
pub fn encode_data(d: &Data, out: &mut Vec<u8>)
    ensures
        final(out)@ == old(out)@ + spec_encode_data(*d),
{
    match d {
        Data::BlockHeaderAndSignature { header, signatures } => {
            out.push(1);
            encode_varint(header.block_number.0, out);
            encode_varint(header.block_hash.0, out);
            match header.state_diff_length {
                Some(l) => {
                    out.push(1);
                    encode_varint(l, out);
                },
                None => {
                    out.push(0);
                },
            }
            let mut sig_entries: Vec<(u64, u64)> = Vec::new();
            let mut i: usize = 0;
            while i < signatures.len()
                invariant
                    i <= signatures@.len(),
                    sig_entries@ == sig_pairs(signatures@.subrange(0, i as int)),
                decreases signatures@.len() - i,
            {
                sig_entries.push((signatures[i].r, signatures[i].s));
                proof {
                    assert(sig_entries@ =~= sig_pairs(signatures@.subrange(0, i + 1)));
                }
                i = i + 1;
            }
            proof {
                assert(signatures@.subrange(0, signatures@.len() as int) =~= signatures@);
            }
            encode_pair_list(&sig_entries, out);
            proof {
                assert(final(out)@ =~= old(out)@ + spec_encode_data(*d));
            }
        },
        Data::StateDiffChunk { part } => {
            out.push(2);
            encode_state_diff(part, out);
            proof {
                assert(final(out)@ =~= old(out)@ + spec_encode_data(*d));
            }
        },
        Data::Fin(data_type) => {
            out.push(3);
            match data_type {
                DataType::SignedBlockHeader => out.push(0),
                DataType::StateDiff => out.push(1),
            }
            proof {
                assert(final(out)@ =~= old(out)@ + spec_encode_data(*d));
            }
        },
    }
}

/// Reads one streamed data item at the position.
pub fn decode_data_at(s: &Vec<u8>, pos: usize) -> (r: Option<(Data, usize)>)
    requires
        pos <= s@.len(),
    ensures
        match r {
            Some((d, end)) => {
                &&& spec_data_decodes(s@, pos as int) == Some(end as int)
                &&& pos < end <= s@.len()
                &&& (match d {
                    Data::BlockHeaderAndSignature { header, signatures } => s@[pos as int] == 1
                        && spec_decode_header(s@, pos as int + 1) == Some(
                        ((header, sig_pairs(signatures@)), end as int),
                    ),
                    Data::StateDiffChunk { part } => s@[pos as int] == 2 && spec_decode_state_diff(
                        s@,
                        pos as int + 1,
                    ) == Some((state_diff_views(part), end as int)),
                    Data::Fin(data_type) => s@[pos as int] == 3 && end == pos + 2 && s@[pos as int
                        + 1] == data_type_byte(data_type),
                })
            },
            None => spec_data_decodes(s@, pos as int) is None,
        },
{
    if pos >= s.len() {
        return None;
    }
    let tag = s[pos];
    if tag == 1 {
        let (block_number, pos1) = match decode_u64(s, pos + 1) {
            None => {
                return None;
            },
            Some(x) => x,
        };
        let (block_hash, pos2) = match decode_u64(s, pos1) {
            None => {
                return None;
            },
            Some(x) => x,
        };
        if pos2 >= s.len() {
            return None;
        }
        let marker = s[pos2];
        if marker > 1 {
            return None;
        }
        let (state_diff_length, pos3): (Option<u64>, usize) = if marker == 0 {
            (None, pos2 + 1)
        } else {
            match decode_u64(s, pos2 + 1) {
                None => {
                    return None;
                },
                Some((declared, p)) => (Some(declared), p),
            }
        };
        let (sig_entries, end) = match decode_pair_list(s, pos3) {
            None => {
                return None;
            },
            Some(x) => x,
        };
        let mut signatures: Vec<Signature> = Vec::new();
        let mut i: usize = 0;
        while i < sig_entries.len()
            invariant
                i <= sig_entries@.len(),
                sig_pairs(signatures@) == sig_entries@.subrange(0, i as int),
            decreases sig_entries@.len() - i,
        {
            let ghost sigs0 = signatures@;
            signatures.push(Signature { r: sig_entries[i].0, s: sig_entries[i].1 });
            proof {
                let entry = sig_entries@[i as int];
                assert(signatures@ == sigs0.push(Signature { r: entry.0, s: entry.1 }));
                assert(sig_pairs(sigs0).len() == sigs0.len());
                assert(sig_pairs(sigs0) == sig_entries@.subrange(0, i as int));
                assert(sigs0.len() == i);
                assert((entry.0, entry.1) == entry);
                assert forall|j: int| 0 <= j < signatures@.len() implies sig_pairs(signatures@)[j]
                    == sig_entries@.subrange(0, i + 1)[j] by {
                    if j < i {
                        assert(sig_pairs(sigs0)[j] == sig_entries@.subrange(0, i as int)[j]);
                        assert(signatures@[j] == sigs0[j]);
                    } else {
                        assert(signatures@[j] == Signature { r: entry.0, s: entry.1 });
                    }
                }
                assert(sig_pairs(signatures@) =~= sig_entries@.subrange(0, i + 1));
            }
            i = i + 1;
        }
        proof {
            assert(sig_entries@.subrange(0, sig_entries@.len() as int) =~= sig_entries@);
        }
        let header = BlockHeader {
            block_number: BlockNumber(block_number),
            block_hash: BlockHash(block_hash),
            state_diff_length,
        };
        Some((Data::BlockHeaderAndSignature { header, signatures }, end))
    } else if tag == 2 {
        match decode_state_diff(s, pos + 1) {
            None => None,
            Some((part, end)) => Some((Data::StateDiffChunk { part }, end)),
        }
    } else if tag == 3 {
        if pos + 1 >= s.len() {
            return None;
        }
        let data_type_tag = s[pos + 1];
        if data_type_tag == 0 {
            Some((Data::Fin(DataType::SignedBlockHeader), pos + 2))
        } else if data_type_tag == 1 {
            Some((Data::Fin(DataType::StateDiff), pos + 2))
        } else {
            None
        }
    } else {
        None
    }
}

/// The length-delimited frame around a payload: the payload's length as a
/// varint, then the payload.
pub open spec fn spec_frame(payload: Seq<u8>) -> Seq<u8> {
    spec_varint(payload.len() as nat) + payload
}



/// The buffer does not hold exactly one well-formed length-delimited frame.
pub open spec fn spec_frame_malformed(bytes: Seq<u8>) -> bool {
    ||| spec_decode_u64(bytes, 0) is None
    ||| (spec_decode_u64(bytes, 0) matches Some((payload_length, payload_start)) && (payload_start
        + payload_length != bytes.len() || spec_data_decodes(bytes, payload_start) != Some(
        bytes.len() as int,
    )))
}

/// The buffer holds exactly one length-delimited frame whose payload reads as
/// this data item, up to the views the item's contracts speak of.
pub open spec fn spec_frame_decodes_to(bytes: Seq<u8>, d: Data) -> bool {
    let decoded = spec_decode_u64(bytes, 0);
    let payload_length = (decoded->0).0;
    let payload_start = (decoded->0).1;
    &&& decoded is Some
    &&& payload_start + payload_length == bytes.len()
    &&& spec_data_decodes(bytes, payload_start) == Some(bytes.len() as int)
    &&& (match d {
        Data::BlockHeaderAndSignature { header, signatures } => spec_decode_header(
            bytes,
            payload_start + 1,
        ) == Some(((header, sig_pairs(signatures@)), bytes.len() as int)),
        Data::StateDiffChunk { part } => spec_decode_state_diff(bytes, payload_start + 1) == Some(
            (state_diff_views(part), bytes.len() as int),
        ),
        Data::Fin(data_type) => bytes[payload_start] == 3 && bytes[payload_start + 1]
            == data_type_byte(data_type),
    })
}

/// Encodes one streamed data item as a length-delimited frame.
pub fn encode_length_delimited_data(d: &Data) -> (r: Vec<u8>)
    ensures
        r@ == spec_frame(spec_encode_data(*d)),
{
    let mut payload: Vec<u8> = Vec::new();
    encode_data(d, &mut payload);
    let mut out: Vec<u8> = Vec::new();
    encode_varint(payload.len() as u64, &mut out);
    let mut payload = payload;
    out.append(&mut payload);
    proof {
        assert(out@ =~= spec_frame(spec_encode_data(*d)));
    }
    out
}

/// Reads one length-delimited data frame; the buffer must hold exactly one
/// frame whose declared length covers the rest of it.
pub fn decode_length_delimited_data(bytes: &Vec<u8>) -> (r: Option<Data>)
    ensures
        match r {
            Some(d) => spec_frame_decodes_to(bytes@, d),
            None => spec_frame_malformed(bytes@),
        },
{
    let (payload_length, payload_start) = match decode_u64(bytes, 0) {
        None => {
            return None;
        },
        Some(x) => x,
    };
    if payload_length > (bytes.len() - payload_start) as u64 || (payload_start as u64)
        + payload_length != bytes.len() as u64 {
        return None;
    }
    match decode_data_at(bytes, payload_start) {
        None => None,
        Some((d, end)) => {
            if end == bytes.len() {
                Some(d)
            } else {
                None
            }
        },
    }
}

/// Framing and decoding one data item recovers it, up to the views its
/// contracts speak of.
pub proof fn lemma_frame_round_trip(d: Data)
    requires
        spec_encode_data(d).len() <= u64::MAX,
        (match d {
            Data::BlockHeaderAndSignature { header, signatures } => signatures@.len()
                <= u64::MAX,
            Data::StateDiffChunk { part } => part.deployed_contracts@.len() <= u64::MAX
                && part.storage_diffs@.len() <= u64::MAX && (forall|i: int|
                0 <= i < part.storage_diffs@.len() ==> (#[trigger] part.storage_diffs@[i]).1@.len()
                    <= u64::MAX) && part.declared_classes@.len() <= u64::MAX
                && part.deprecated_declared_classes@.len() <= u64::MAX && part.nonces@.len()
                <= u64::MAX && part.replaced_classes@.len() <= u64::MAX,
            Data::Fin(_) => true,
        }),
    ensures
        ({
            let framed = spec_frame(spec_encode_data(d));
            let payload_start = spec_varint(spec_encode_data(d).len() as nat).len() as int;
            &&& spec_decode_u64(framed, 0) == Some(
                (spec_encode_data(d).len() as u64, payload_start),
            )
            &&& spec_data_decodes(framed, payload_start) == Some(framed.len() as int)
        }),
{
    let payload = spec_encode_data(d);
    let framed = spec_frame(payload);
    let length_bytes = spec_varint(payload.len() as nat);
    assert(framed =~= Seq::<u8>::empty() + length_bytes + payload);
    lemma_varint_round_trip(Seq::<u8>::empty(), payload.len() as nat, payload);
    let payload_start = length_bytes.len() as int;
    match d {
        Data::BlockHeaderAndSignature { header, signatures } => {
            assert(framed[payload_start] == 1) by {
                assert(payload[0] == 1u8);
            }
            let prefix = length_bytes + seq![1u8];
            assert(framed =~= prefix + spec_encode_header(header, signatures@)
                + Seq::<u8>::empty());
            lemma_header_round_trip(prefix, header, signatures@, Seq::<u8>::empty());
        },
        Data::StateDiffChunk { part } => {
            assert(framed[payload_start] == 2) by {
                assert(payload[0] == 2u8);
            }
            let prefix = length_bytes + seq![2u8];
            assert(framed =~= prefix + spec_encode_state_diff(part) + Seq::<u8>::empty());
            lemma_state_diff_round_trip(prefix, part, Seq::<u8>::empty());
        },
        Data::Fin(data_type) => {
            assert(framed[payload_start] == 3) by {
                assert(payload[0] == 3u8);
            }
            assert(framed[payload_start + 1] == data_type_byte(data_type)) by {
                assert(payload[1] == data_type_byte(data_type));
            }
        },
    }
}

} // verus!
