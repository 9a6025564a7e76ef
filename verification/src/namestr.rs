//! Variable descriptors.
//!
//! The NAMESTR section holds one 140-byte descriptor for each variable, packed
//! one after the other without regard to card boundaries. The variables are
//! handed out in ascending order of their declared positions, and in the
//! order of their descriptors where positions are equal.

use crate::dataset::{vars_view, vars_wf, VarMeta, VarMetaView};
use crate::text::{decode_char, lemma_text_decoded_len, text_decoded};
use vstd::prelude::*;
use vstd::slice::slice_subrange;

verus! {

/// The length of a descriptor.
pub const NAMESTR_LEN: usize = 140;

/// The unsigned 16-bit number that two bytes hold, big-endian.
pub open spec fn be_u16_value(b: Seq<u8>) -> int {
    b[0] * 0x100 + b[1]
}

/// The signed 16-bit number that two bytes hold, big-endian, in two's
/// complement.
pub open spec fn be_i16_value(b: Seq<u8>) -> int {
    if b[0] >= 0x80 {
        be_u16_value(b) - 0x1_0000
    } else {
        be_u16_value(b)
    }
}

/// The unsigned 32-bit number that four bytes hold, big-endian.
pub open spec fn be_u32_value(b: Seq<u8>) -> int {
    b[0] * 0x100_0000 + b[1] * 0x1_0000 + b[2] * 0x100 + b[3]
}

/// Reads an unsigned big-endian 16-bit number from the first two bytes.
pub fn be_u16(b: &[u8]) -> (r: u16)
    requires
        b@.len() >= 2,
    ensures
        r == be_u16_value(b@),
{
    (b[0] as u16) * 0x100 + (b[1] as u16)
}

/// Reads a signed big-endian 16-bit number from the first two bytes.
pub fn be_i16(b: &[u8]) -> (r: i16)
    requires
        b@.len() >= 2,
    ensures
        r == be_i16_value(b@),
{
    let u: i32 = (b[0] as i32) * 0x100 + (b[1] as i32);
    if b[0] >= 0x80 {
        (u - 0x1_0000) as i16
    } else {
        u as i16
    }
}

/// Reads an unsigned big-endian 32-bit number from the first four bytes.
pub fn be_u32(b: &[u8]) -> (r: u32)
    requires
        b@.len() >= 4,
    ensures
        r == be_u32_value(b@),
{
    (b[0] as u32) * 0x100_0000 + (b[1] as u32) * 0x1_0000 + (b[2] as u32) * 0x100 + (b[3] as u32)
}

/// The variable that a descriptor describes.
///
/// | bytes  | field                                              |
/// |--------|----------------------------------------------------|
/// | 0-1    | type code: 1 is numeric, anything else character   |
/// | 4-5    | length in the row (a length of 0 is read as 1)     |
/// | 6-7    | order number                                       |
/// | 8-15   | name                                               |
/// | 16-55  | label                                              |
/// | 56-63  | format name, then its width (64-65), decimals (66-67) |
/// | 72-79  | informat name, then its width (80-81), decimals (82-83) |
/// | 84-87  | position in the row                                |
pub open spec fn namestr_decoded(b: Seq<u8>) -> VarMetaView {
    VarMetaView {
        name: text_decoded(b.subrange(8, 16)),
        label: text_decoded(b.subrange(16, 56)),
        format_name: text_decoded(b.subrange(56, 64)),
        format_len: be_i16_value(b.subrange(64, 66)) as i16,
        format_decimals: be_i16_value(b.subrange(66, 68)) as i16,
        informat_name: text_decoded(b.subrange(72, 80)),
        informat_len: be_i16_value(b.subrange(80, 82)) as i16,
        informat_decimals: be_i16_value(b.subrange(82, 84)) as i16,
        length: if be_u16_value(b.subrange(4, 6)) == 0 {
            1nat
        } else {
            be_u16_value(b.subrange(4, 6)) as nat
        },
        position: be_u32_value(b.subrange(84, 88)) as nat,
        is_char: be_u16_value(b.subrange(0, 2)) != 1,
        varnum: be_i16_value(b.subrange(6, 8)) as i16,
    }
}

/// Every descriptor describes a well-formed variable.
pub proof fn lemma_namestr_wf(b: Seq<u8>)
    requires
        b.len() >= 88,
    ensures
        namestr_decoded(b).wf(),
{
    lemma_text_decoded_len(b.subrange(8, 16));
    lemma_text_decoded_len(b.subrange(16, 56));
    lemma_text_decoded_len(b.subrange(56, 64));
    lemma_text_decoded_len(b.subrange(72, 80));
}

/// Decodes one descriptor. Only its first 88 bytes are read.
pub fn parse_namestr_140(b: &[u8]) -> (v: VarMeta)
    requires
        b@.len() >= 88,
    ensures
        v@ == namestr_decoded(b@),
        v@.wf(),
{
    let ntype = be_u16(slice_subrange(b, 0, 2));
    let nlng = be_u16(slice_subrange(b, 4, 6));
    let nvar0 = be_i16(slice_subrange(b, 6, 8));
    let name = decode_char(slice_subrange(b, 8, 16));
    let label = decode_char(slice_subrange(b, 16, 56));
    let nform = decode_char(slice_subrange(b, 56, 64));
    let nfl = be_i16(slice_subrange(b, 64, 66));
    let nfd = be_i16(slice_subrange(b, 66, 68));
    let niform = decode_char(slice_subrange(b, 72, 80));
    let nifl = be_i16(slice_subrange(b, 80, 82));
    let nifd = be_i16(slice_subrange(b, 82, 84));
    let npos = be_u32(slice_subrange(b, 84, 88));
    proof {
        lemma_namestr_wf(b@);
    }
    VarMeta {
        name,
        label,
        format_name: nform,
        format_len: nfl,
        format_decimals: nfd,
        informat_name: niform,
        informat_len: nifl,
        informat_decimals: nifd,
        length: if nlng == 0 {
            1
        } else {
            nlng as usize
        },
        position: npos as usize,
        is_char: ntype != 1,
        varnum: nvar0,
    }
}

/// An ASCII decimal digit.
pub open spec fn is_digit(b: u8) -> bool {
    0x30 <= b <= 0x39
}

/// The number of variables that the second card of a NAMESTR header
/// declares: the four ASCII digits at offset 54, if digits stand there.
///
/// The number is a hint and nothing more. Some writers leave it out or get it
/// wrong, so the variables are counted by the descriptors that stand between
/// the NAMESTR header and the OBS banner, and this number plays no part.
pub open spec fn hinted_count(card: Seq<u8>) -> Option<u16> {
    if card.len() >= 58 && is_digit(card[54]) && is_digit(card[55]) && is_digit(card[56])
        && is_digit(card[57]) {
        Some(
            ((card[54] - 0x30) * 1000 + (card[55] - 0x30) * 100 + (card[56] - 0x30) * 10 + (card[57]
                - 0x30)) as u16,
        )
    } else {
        None
    }
}

/// Reads the number of variables that a NAMESTR header declares.
pub fn hinted_variable_count(card: &[u8]) -> (count: Option<u16>)
    ensures
        count == hinted_count(card@),
{
    if card.len() < 58 {
        return None;
    }
    let mut value: u16 = 0;
    let mut i: usize = 54;
    while i < 58
        invariant
            54 <= i <= 58,
            card@.len() >= 58,
            forall|j: int| 54 <= j < i ==> is_digit(card@[j]),
            i == 54 ==> value == 0,
            i == 55 ==> value == card@[54] - 0x30,
            i == 56 ==> value == (card@[54] - 0x30) * 10 + (card@[55] - 0x30),
            i == 57 ==> value == (card@[54] - 0x30) * 100 + (card@[55] - 0x30) * 10 + (card@[56]
                - 0x30),
            i == 58 ==> value == (card@[54] - 0x30) * 1000 + (card@[55] - 0x30) * 100 + (card@[56]
                - 0x30) * 10 + (card@[57] - 0x30),
        decreases 58 - i,
    {
        let b = card[i];
        if b < 0x30 || b > 0x39 {
            return None;
        }
        value = value * 10 + (b - 0x30) as u16;
        i += 1;
    }
    Some(value)
}

/// The `i`-th descriptor of a block of descriptors.
pub open spec fn descriptor_at(block: Seq<u8>, i: int) -> Seq<u8> {
    block.subrange(i * NAMESTR_LEN, i * NAMESTR_LEN + NAMESTR_LEN)
}

/// The number of descriptors in a block: as many as fit whole.
pub open spec fn descriptor_count(block: Seq<u8>) -> nat {
    block.len() / (NAMESTR_LEN as nat)
}

/// The positions that the descriptors of a block declare, in the descriptors'
/// order.
pub open spec fn declared_positions(block: Seq<u8>) -> Seq<u32> {
    Seq::new(
        descriptor_count(block),
        |i: int| be_u32_value(descriptor_at(block, i).subrange(84, 88)) as u32,
    )
}

/// Where an index with key `key` goes into `order`, which is sorted by key:
/// behind the last entry whose key is not greater.
pub open spec fn insertion_point(keys: Seq<u32>, order: Seq<usize>, key: u32) -> int
    decreases order.len(),
{
    if order.len() == 0 {
        0
    } else if keys[order.last() as int] <= key {
        order.len() as int
    } else {
        insertion_point(keys, order.drop_last(), key)
    }
}

/// The indices `0..n` in ascending order of their keys, equal keys in
/// ascending order of the indices: each index in turn is put behind the last
/// of the earlier ones whose key is not greater.
pub open spec fn stable_order(keys: Seq<u32>, n: nat) -> Seq<usize>
    decreases n,
{
    if n == 0 {
        Seq::empty()
    } else {
        let earlier = stable_order(keys, (n - 1) as nat);
        earlier.insert(insertion_point(keys, earlier, keys[n - 1]), (n - 1) as usize)
    }
}

/// `a` comes before `b`: its key is smaller, or the keys are equal and its
/// index is.
pub open spec fn comes_before(keys: Seq<u32>, a: usize, b: usize) -> bool {
    keys[a as int] < keys[b as int] || (keys[a as int] == keys[b as int] && a < b)
}

/// `order` lists indices below `n`, each before all that it `comes_before`.
pub open spec fn is_sorted_order(keys: Seq<u32>, order: Seq<usize>, n: nat) -> bool {
    &&& forall|k: int| 0 <= k < order.len() ==> (#[trigger] order[k]) < n
    &&& forall|a: int, b: int|
        0 <= a < b < order.len() ==> comes_before(keys, #[trigger] order[a], #[trigger] order[b])
}

/// The insertion point splits a sorted order into the entries whose key is
/// not greater than `key` and those whose key is greater.
pub proof fn lemma_insertion_point(keys: Seq<u32>, order: Seq<usize>, key: u32, n: nat)
    requires
        n <= keys.len(),
        is_sorted_order(keys, order, n),
    ensures
        0 <= insertion_point(keys, order, key) <= order.len(),
        forall|j: int|
            0 <= j < insertion_point(keys, order, key) ==> keys[(#[trigger] order[j]) as int]
                <= key,
        forall|j: int|
            insertion_point(keys, order, key) <= j < order.len() ==> keys[(
            #[trigger] order[j]) as int] > key,
    decreases order.len(),
{
    if order.len() == 0 {
    } else if keys[order.last() as int] <= key {
        assert forall|j: int| 0 <= j < order.len() implies keys[(#[trigger] order[j]) as int]
            <= key by {
            if j < order.len() - 1 {
                assert(comes_before(keys, order[j], order[order.len() - 1]));
            }
        }
    } else {
        let shorter = order.drop_last();
        assert(is_sorted_order(keys, shorter, n)) by {
            assert forall|a: int, b: int| 0 <= a < b < shorter.len() implies comes_before(
                keys,
                #[trigger] shorter[a],
                #[trigger] shorter[b],
            ) by {
                assert(comes_before(keys, order[a], order[b]));
            }
        }
        lemma_insertion_point(keys, shorter, key, n);
        let p = insertion_point(keys, shorter, key);
        assert forall|j: int| 0 <= j < p implies keys[(#[trigger] order[j]) as int] <= key by {
            assert(shorter[j] == order[j]);
        }
        assert forall|j: int| p <= j < order.len() implies keys[(#[trigger] order[j]) as int]
            > key by {
            if j < shorter.len() {
                assert(shorter[j] == order[j]);
            }
        }
    }
}

/// The order of the variables: every index `0..n` stands in it once, those
/// with smaller keys first, and those with equal keys in the order of the
/// indices.
pub proof fn lemma_stable_order(keys: Seq<u32>, n: nat)
    requires
        n <= keys.len() <= usize::MAX,
    ensures
        stable_order(keys, n).len() == n,
        is_sorted_order(keys, stable_order(keys, n), n),
        forall|i: usize| i < n ==> #[trigger] stable_order(keys, n).contains(i),
    decreases n,
{
    if n > 0 {
        let earlier = stable_order(keys, (n - 1) as nat);
        let key = keys[n - 1];
        let last = (n - 1) as usize;
        lemma_stable_order(keys, (n - 1) as nat);
        lemma_insertion_point(keys, earlier, key, (n - 1) as nat);
        let p = insertion_point(keys, earlier, key);
        let order = earlier.insert(p, last);
        assert(order == stable_order(keys, n));
        assert forall|k: int| 0 <= k < order.len() implies (#[trigger] order[k]) < n by {
            if k < p {
                assert(order[k] == earlier[k]);
            } else if k > p {
                assert(order[k] == earlier[k - 1]);
            }
        }
        assert forall|a: int, b: int| 0 <= a < b < order.len() implies comes_before(
            keys,
            #[trigger] order[a],
            #[trigger] order[b],
        ) by {
            if b < p {
                assert(order[a] == earlier[a] && order[b] == earlier[b]);
            } else if b == p {
                assert(order[a] == earlier[a]);
            } else if a < p {
                assert(order[a] == earlier[a] && order[b] == earlier[b - 1]);
            } else if a == p {
                assert(order[b] == earlier[b - 1]);
            } else {
                assert(order[a] == earlier[a - 1] && order[b] == earlier[b - 1]);
            }
        }
        assert forall|i: usize| i < n implies #[trigger] order.contains(i) by {
            if i == n - 1 {
                assert(order[p] == last);
            } else {
                assert(earlier.contains(i));
                let k = choose|k: int| 0 <= k < earlier.len() && earlier[k] == i;
                if k < p {
                    assert(order[k] == earlier[k]);
                } else {
                    assert(order[k + 1] == earlier[k]);
                }
            }
        }
    }
}

/// Positions that ascend keep the order of the descriptors.
pub proof fn lemma_ascending_positions_keep_order(keys: Seq<u32>, n: nat)
    requires
        n <= keys.len() <= usize::MAX,
        forall|i: int, j: int| 0 <= i <= j < n ==> keys[i] <= keys[j],
    ensures
        stable_order(keys, n) == Seq::new(n, |i: int| i as usize),
    decreases n,
{
    if n > 0 {
        lemma_ascending_positions_keep_order(keys, (n - 1) as nat);
        let earlier = stable_order(keys, (n - 1) as nat);
        if n > 1 {
            assert(earlier.last() == (n - 2) as usize);
            assert(keys[n - 2] <= keys[n - 1]);
        }
        assert(insertion_point(keys, earlier, keys[n - 1]) == n - 1);
        assert(stable_order(keys, n) =~= Seq::new(n, |i: int| i as usize));
    } else {
        assert(stable_order(keys, n) =~= Seq::new(n, |i: int| i as usize));
    }
}

/// Computes the order of the variables from their declared positions.
pub fn sort_order(keys: &Vec<u32>) -> (order: Vec<usize>)
    ensures
        order@ == stable_order(keys@, keys@.len()),
{
    let n = keys.len();
    let mut order: Vec<usize> = Vec::new();
    let mut i: usize = 0;
    while i < n
        invariant
            n == keys@.len(),
            i <= n,
            order@ == stable_order(keys@, i as nat),
        decreases n - i,
    {
        proof {
            lemma_stable_order(keys@, i as nat);
        }
        let key = keys[i];
        let mut p: usize = order.len();
        assert(order@.subrange(0, p as int) == order@);
        while p > 0 && keys[order[p - 1]] > key
            invariant
                n == keys@.len(),
                i < n,
                key == keys@[i as int],
                p <= order@.len(),
                order@.len() == i,
                forall|k: int| 0 <= k < order@.len() ==> (#[trigger] order@[k]) < i,
                insertion_point(keys@, order@, key) == insertion_point(
                    keys@,
                    order@.subrange(0, p as int),
                    key,
                ),
            decreases p,
        {
            assert(order@.subrange(0, p as int).drop_last() == order@.subrange(0, p - 1));
            p -= 1;
        }
        order.insert(p, i);
        i += 1;
    }
    order
}

/// The variables that a block of descriptors describes, in their order.
pub open spec fn variables_decoded(block: Seq<u8>) -> Seq<VarMetaView> {
    let order = stable_order(declared_positions(block), descriptor_count(block));
    Seq::new(descriptor_count(block), |k: int| namestr_decoded(descriptor_at(block, order[k] as int)))
}

/// Decoded variables are well formed, one for each descriptor.
pub proof fn lemma_variables_decoded(block: Seq<u8>)
    requires
        block.len() <= usize::MAX,
    ensures
        variables_decoded(block).len() == descriptor_count(block),
        vars_wf(variables_decoded(block)),
{
    let n = descriptor_count(block);
    let order = stable_order(declared_positions(block), n);
    lemma_stable_order(declared_positions(block), n);
    assert forall|k: int| 0 <= k < n implies (#[trigger] variables_decoded(block)[k]).wf() by {
        assert(order[k] < n);
        lemma_descriptor_in_block(block, order[k] as int);
        lemma_namestr_wf(descriptor_at(block, order[k] as int));
    }
}

/// No descriptor of the block declares a position below that of a descriptor
/// before it.
pub open spec fn positions_ascend(block: Seq<u8>) -> bool {
    forall|i: int, j: int|
        0 <= i <= j < descriptor_count(block) ==> declared_positions(block)[i]
            <= declared_positions(block)[j]
}

/// Where the declared positions ascend, the variables come out in the order
/// of their descriptors: the `k`-th variable is what the `k`-th descriptor
/// describes.
pub proof fn lemma_declared_order(block: Seq<u8>, k: int)
    requires
        block.len() <= usize::MAX,
        positions_ascend(block),
        0 <= k < descriptor_count(block),
    ensures
        variables_decoded(block)[k] == namestr_decoded(descriptor_at(block, k)),
{
    lemma_ascending_positions_keep_order(declared_positions(block), descriptor_count(block));
}

/// A descriptor below the count lies inside the block.
pub proof fn lemma_descriptor_in_block(block: Seq<u8>, i: int)
    requires
        0 <= i < descriptor_count(block),
    ensures
        0 <= i * NAMESTR_LEN,
        i * NAMESTR_LEN + NAMESTR_LEN <= block.len(),
        descriptor_at(block, i).len() == NAMESTR_LEN,
{
    let n = descriptor_count(block) as int;
    assert(n * 140 <= block.len()) by (nonlinear_arith)
        requires
            n == block.len() as int / 140,
    ;
    assert(i * 140 + 140 <= n * 140) by (nonlinear_arith)
        requires
            0 <= i < n,
    ;
    assert(0 <= i * 140) by (nonlinear_arith)
        requires
            0 <= i,
    ;
}

/// Decodes the descriptors of a block and orders the variables by their
/// declared positions. Bytes behind the last whole descriptor are left unread.
pub fn decode_variables(block: &[u8]) -> (vars: Vec<VarMeta>)
    ensures
        vars_view(vars@) == variables_decoded(block@),
        vars_wf(vars_view(vars@)),
{
    let count = block.len() / NAMESTR_LEN;
    let mut positions: Vec<u32> = Vec::new();
    let mut i: usize = 0;
    while i < count
        invariant
            block@.len() <= usize::MAX,
            count == descriptor_count(block@),
            i <= count,
            positions@.len() == i,
            forall|j: int| 0 <= j < i ==> positions@[j] == declared_positions(block@)[j],
        decreases count - i,
    {
        proof {
            lemma_descriptor_in_block(block@, i as int);
        }
        let start = i * NAMESTR_LEN;
        let field = slice_subrange(block, start + 84, start + 88);
        assert(field@ == descriptor_at(block@, i as int).subrange(84, 88));
        positions.push(be_u32(field));
        i += 1;
    }
    assert(positions@ == declared_positions(block@));
    let order = sort_order(&positions);
    proof {
        lemma_stable_order(positions@, count as nat);
        lemma_variables_decoded(block@);
    }
    let mut vars: Vec<VarMeta> = Vec::new();
    let mut k: usize = 0;
    while k < count
        invariant
            block@.len() <= usize::MAX,
            count == descriptor_count(block@),
            k <= count,
            vars@.len() == k,
            order@ == stable_order(declared_positions(block@), count as nat),
            order@.len() == count,
            is_sorted_order(declared_positions(block@), order@, count as nat),
            forall|j: int| 0 <= j < k ==> (#[trigger] vars@[j])@ == variables_decoded(block@)[j],
        decreases count - k,
    {
        let index = order[k];
        proof {
            lemma_descriptor_in_block(block@, index as int);
        }
        let start = index * NAMESTR_LEN;
        let descriptor = slice_subrange(block, start, start + NAMESTR_LEN);
        vars.push(parse_namestr_140(descriptor));
        k += 1;
    }
    assert(vars_view(vars@) == variables_decoded(block@));
    vars
}

} // verus!
