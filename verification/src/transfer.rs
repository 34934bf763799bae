//! Words and bytes: what is uploaded to a buffer and what is read back from one.
//!
//! A buffer holds bytes in the byte order of the machine, which is one of two; no contract says which of
//! them it is.

use crate::layout::{Boid, TreeInstance};
use vstd::prelude::*;

verus! {

/// The bytes of words, least significant byte first.
pub open spec fn le_bytes(words: Seq<u32>) -> Seq<u8>
    decreases words.len(),
{
    if words.len() == 0 {
        Seq::empty()
    } else {
        le_bytes(words.drop_last()) + crate::bytes::be32(words.last()).reverse()
    }
}

/// The bytes of words, most significant byte first.
pub open spec fn be_bytes(words: Seq<u32>) -> Seq<u8>
    decreases words.len(),
{
    if words.len() == 0 {
        Seq::empty()
    } else {
        be_bytes(words.drop_last()) + crate::bytes::be32(words.last())
    }
}

/// Whether `bytes` is how a machine stores `words`: every word in one of the two byte orders, and all
/// words in the same.
pub open spec fn stores(words: Seq<u32>, bytes: Seq<u8>) -> bool {
    bytes == le_bytes(words) || bytes == be_bytes(words)
}

/// The order in which a machine stores the bytes of a number.
#[derive(Debug, Clone, Copy, PartialEq, Eq, Structural)]
pub enum ByteOrder {
    /// Least significant byte first.
    LeastFirst,
    /// Most significant byte first.
    MostFirst,
}

impl ByteOrder {
    /// The bytes of words in this order.
    pub open spec fn bytes(self, words: Seq<u32>) -> Seq<u8> {
        match self {
            ByteOrder::LeastFirst => le_bytes(words),
            ByteOrder::MostFirst => be_bytes(words),
        }
    }

    /// The order of a machine that stores the number one as `bytes`.
    pub fn of_one(bytes: &[u8]) -> (order: ByteOrder)
        requires
            stores(seq![1u32], bytes@),
        ensures
            bytes@ == order.bytes(seq![1u32]),
            order == ByteOrder::LeastFirst <==> bytes@ == seq![1u8, 0, 0, 0],
            order == ByteOrder::MostFirst <==> bytes@ == seq![0u8, 0, 0, 1],
    {
        proof {
            let one = seq![1u32];
            reveal(crate::bytes::be32);
            reveal_with_fuel(le_bytes, 2);
            reveal_with_fuel(be_bytes, 2);
            assert(one.drop_last() =~= Seq::<u32>::empty());
            assert(be_bytes(one) =~= seq![0u8, 0, 0, 1]);
            assert(le_bytes(one) =~= seq![1u8, 0, 0, 0]);
            assert(le_bytes(one)[0] != be_bytes(one)[0]);
        }
        if bytes[0] == 1 {
            ByteOrder::LeastFirst
        } else {
            ByteOrder::MostFirst
        }
    }
}

/// `bytemuck::cast_slice` from words to bytes, copied: the memory of the words, which is four bytes
/// per word in the byte order of the machine. Which of the two orders that is, is left open.
#[verifier::external_body]
pub(crate) fn bytes_of_words(words: &[u32]) -> (bytes: Vec<u8>)
    ensures
        stores(words@, bytes@),
{
    bytemuck::cast_slice::<u32, u8>(words).to_vec()
}

/// `bytemuck::pod_collect_to_vec` from bytes to words: the words whose memory, in the byte order of the
/// machine, is the given bytes. The function fills a last, incomplete word with zeros; such input is
/// left out here. Which of the two orders the machine has, is left open.
#[verifier::external_body]
pub(crate) fn words_of_bytes(bytes: &[u8]) -> (words: Vec<u32>)
    requires
        bytes@.len() % 4 == 0,
    ensures
        stores(words@, bytes@),
{
    bytemuck::pod_collect_to_vec::<u8, u32>(bytes)
}

proof fn lemma_lengths(words: Seq<u32>)
    ensures
        le_bytes(words).len() == 4 * words.len(),
        be_bytes(words).len() == 4 * words.len(),
    decreases words.len(),
{
    if words.len() > 0 {
        lemma_lengths(words.drop_last());
        reveal(crate::bytes::be32);
    }
}

/// Words take four bytes each, and no two rows of words are stored as the same bytes in one order: what
/// is written in one byte order and read in the same comes back unchanged.
pub proof fn law_one_byte_order_reads_back(a: Seq<u32>, b: Seq<u32>)
    ensures
        le_bytes(a).len() == 4 * a.len(),
        be_bytes(a).len() == 4 * a.len(),
        le_bytes(a) == le_bytes(b) ==> a == b,
        be_bytes(a) == be_bytes(b) ==> a == b,
    decreases a.len(),
{
    lemma_lengths(a);
    lemma_lengths(b);
    if a.len() > 0 && a.len() == b.len() {
        let (x, y) = (a.last(), b.last());
        let (p, q) = (a.drop_last(), b.drop_last());
        law_one_byte_order_reads_back(p, q);
        lemma_lengths(p);
        lemma_lengths(q);
        let none = Seq::<u8>::empty();
        crate::bytes::law_be32_reads_back(x, none, none);
        crate::bytes::law_be32_reads_back(y, none, none);
        assert(none + crate::bytes::be32(x) + none =~= crate::bytes::be32(x));
        assert(none + crate::bytes::be32(y) + none =~= crate::bytes::be32(y));
        let at = 4 * p.len() as int;
        if be_bytes(a) == be_bytes(b) {
            assert(be_bytes(a).take(at) =~= be_bytes(p));
            assert(be_bytes(b).take(at) =~= be_bytes(q));
            assert(be_bytes(a).skip(at) =~= crate::bytes::be32(x));
            assert(be_bytes(b).skip(at) =~= crate::bytes::be32(y));
        }
        if le_bytes(a) == le_bytes(b) {
            assert(le_bytes(a).take(at) =~= le_bytes(p));
            assert(le_bytes(b).take(at) =~= le_bytes(q));
            assert(le_bytes(a).skip(at).reverse() =~= crate::bytes::be32(x));
            assert(le_bytes(b).skip(at).reverse() =~= crate::bytes::be32(y));
        }
        assert(a =~= p.push(x));
        assert(b =~= q.push(y));
    } else if a.len() == b.len() {
        assert(a =~= b);
    }
}

/// The words of a swarm, agent after agent.
pub open spec fn boid_words(boids: Seq<Boid>) -> Seq<u32>
    decreases boids.len(),
{
    if boids.len() == 0 {
        Seq::empty()
    } else {
        boid_words(boids.drop_last()) + crate::layout::flat(boids.last().field_data())
    }
}

proof fn lemma_one_boid(boid: Boid)
    ensures
        crate::layout::flat(boid.field_data()) =~= boid.pos@ + seq![boid.species] + boid.vel@ + seq![
            boid.phase,
        ] + boid.prev_dir@ + seq![boid.color_seed],
{
    reveal_with_fuel(crate::layout::flat, 7);
}

proof fn lemma_boid_words_len(boids: Seq<Boid>)
    ensures
        boid_words(boids).len() == 12 * boids.len(),
    decreases boids.len(),
{
    if boids.len() > 0 {
        lemma_boid_words_len(boids.drop_last());
        lemma_one_boid(boids.last());
    }
}

/// The bytes that a swarm is uploaded as, into a buffer of `buffer_size` bytes that has to hold them.
pub fn upload_boids(boids: &[Boid], buffer_size: u64) -> (bytes: Vec<u8>)
    requires
        48 * boids@.len() <= buffer_size,
    ensures
        stores(boid_words(boids@), bytes@),
        bytes@.len() == 48 * boids@.len(),
{
    let mut words: Vec<u32> = Vec::new();
    let mut i: usize = 0;
    assert(boids@.take(0) =~= Seq::<Boid>::empty());
    while i < boids.len()
        invariant
            i <= boids@.len(),
            words@ == boid_words(boids@.take(i as int)),
        decreases boids@.len() - i,
    {
        assert(boids@.take(i as int + 1).drop_last() =~= boids@.take(i as int));
        assert(boids@.take(i as int + 1).last() == boids@[i as int]);
        boids[i].push_words(&mut words);
        i += 1;
    }
    assert(boids@.take(boids@.len() as int) =~= boids@);
    proof {
        lemma_boid_words_len(boids@);
        lemma_lengths(words@);
    }
    bytes_of_words(&words)
}

/// The bytes that one agent is uploaded as.
pub fn boid_bytes(boid: &Boid) -> (bytes: Vec<u8>)
    ensures
        stores(crate::layout::flat(boid.field_data()), bytes@),
        bytes@.len() == 48,
{
    let mut words: Vec<u32> = Vec::new();
    boid.push_words(&mut words);
    proof {
        assert(words@ =~= crate::layout::flat(boid.field_data()));
        lemma_one_boid(*boid);
        lemma_lengths(words@);
    }
    bytes_of_words(&words)
}

/// The bytes that one scattered mesh is uploaded as.
pub fn tree_bytes(tree: &TreeInstance) -> (bytes: Vec<u8>)
    ensures
        stores(crate::layout::flat(tree.field_data()), bytes@),
        bytes@.len() == 32,
{
    let mut words: Vec<u32> = Vec::new();
    tree.push_words(&mut words);
    proof {
        assert(words@ =~= crate::layout::flat(tree.field_data()));
        reveal_with_fuel(crate::layout::flat, 7);
        lemma_lengths(words@);
    }
    bytes_of_words(&words)
}

/// The words that a buffer was read back as. The buffer has to be made of whole words.
pub fn read_words(bytes: &[u8]) -> (words: Vec<u32>)
    requires
        bytes@.len() % 4 == 0,
    ensures
        stores(words@, bytes@),
        words@.len() == bytes@.len() / 4,
{
    let words = words_of_bytes(bytes);
    proof {
        lemma_lengths(words@);
    }
    words
}

/// The agents that words stand for, twelve words each.
pub fn boids_of_words(words: &[u32]) -> (boids: Vec<Boid>)
    requires
        words@.len() % 12 == 0,
    ensures
        boid_words(boids@) == words@,
{
    let mut boids: Vec<Boid> = Vec::new();
    let mut at: usize = 0;
    assert(words@.take(0) =~= Seq::<u32>::empty());
    while at < words.len()
        invariant
            at <= words@.len(),
            at % 12 == 0,
            words@.len() % 12 == 0,
            boid_words(boids@) == words@.take(at as int),
        decreases words@.len() - at,
    {
        let boid = Boid {
            pos: [words[at], words[at + 1], words[at + 2]],
            species: words[at + 3],
            vel: [words[at + 4], words[at + 5], words[at + 6]],
            phase: words[at + 7],
            prev_dir: [words[at + 8], words[at + 9], words[at + 10]],
            color_seed: words[at + 11],
        };
        let ghost before = boids@;
        boids.push(boid);
        proof {
            lemma_one_boid(boid);
            assert(boids@.drop_last() =~= before);
            assert(boid_words(boids@) =~= words@.take(at as int + 12));
        }
        at = at + 12;
    }
    assert(words@.take(words@.len() as int) =~= words@);
    boids
}

/// The agents in a buffer that was read back. The buffer has to be made of whole agents.
pub fn read_boids(bytes: &[u8]) -> (boids: Vec<Boid>)
    requires
        bytes@.len() % 48 == 0,
    ensures
        stores(boid_words(boids@), bytes@),
        boids@.len() == bytes@.len() / 48,
{
    let words = read_words(bytes);
    let boids = boids_of_words(&words);
    proof {
        lemma_boid_words_len(boids@);
        lemma_lengths(words@);
    }
    boids
}

/// Whether two agents hold the same words.
pub open spec fn same_boid(a: Boid, b: Boid) -> bool {
    &&& a.pos@ == b.pos@
    &&& a.species == b.species
    &&& a.vel@ == b.vel@
    &&& a.phase == b.phase
    &&& a.prev_dir@ == b.prev_dir@
    &&& a.color_seed == b.color_seed
}

/// The words of a swarm tell every agent apart: a swarm that is written as words and read from them is
/// the same swarm, agent by agent.
pub proof fn law_swarms_read_back(a: Seq<Boid>, b: Seq<Boid>, i: int)
    requires
        boid_words(a) == boid_words(b),
        0 <= i < a.len(),
    ensures
        a.len() == b.len(),
        same_boid(a[i], b[i]),
    decreases a.len(),
{
    lemma_boid_words_len(a);
    lemma_boid_words_len(b);
    let (x, y) = (a.last(), b.last());
    let (p, q) = (a.drop_last(), b.drop_last());
    let (u, v) = (crate::layout::flat(x.field_data()), crate::layout::flat(y.field_data()));
    lemma_boid_words_len(p);
    lemma_boid_words_len(q);
    lemma_one_boid(x);
    lemma_one_boid(y);
    let at = 12 * p.len() as int;
    assert(boid_words(a).take(at) =~= boid_words(p));
    assert(boid_words(b).take(at) =~= boid_words(q));
    assert(boid_words(a).skip(at) =~= u);
    assert(boid_words(b).skip(at) =~= v);
    if i < p.len() {
        law_swarms_read_back(p, q, i);
    } else {
        assert(x.pos@ =~= u.subrange(0, 3));
        assert(y.pos@ =~= v.subrange(0, 3));
        assert(x.vel@ =~= u.subrange(4, 7));
        assert(y.vel@ =~= v.subrange(4, 7));
        assert(x.prev_dir@ =~= u.subrange(8, 11));
        assert(y.prev_dir@ =~= v.subrange(8, 11));
        assert(x.species == u[3] && y.species == v[3]);
        assert(x.phase == u[7] && y.phase == v[7]);
        assert(x.color_seed == u[11] && y.color_seed == v[11]);
    }
}

/// A swarm survives the way to a buffer and back, agent by agent, as long as writing and reading use the
/// same byte order.
pub proof fn law_uploads_read_back(written: Seq<Boid>, read: Seq<Boid>, bytes: Seq<u8>, i: int)
    requires
        (bytes == le_bytes(boid_words(written)) && bytes == le_bytes(boid_words(read))) || (bytes
            == be_bytes(boid_words(written)) && bytes == be_bytes(boid_words(read))),
        0 <= i < written.len(),
    ensures
        written.len() == read.len(),
        same_boid(written[i], read[i]),
{
    law_one_byte_order_reads_back(boid_words(written), boid_words(read));
    law_swarms_read_back(written, read, i);
}

/// Bytes make up their words: four bytes to a word, the first weighing most or least, as the order has it.
pub proof fn law_bytes_make_up_their_words(words: Seq<u32>, i: int)
    requires
        0 <= i < words.len(),
    ensures
        be_bytes(words).len() == 4 * words.len(),
        le_bytes(words).len() == 4 * words.len(),
        words[i] == be_bytes(words)[4 * i] * 16_777_216 + be_bytes(words)[4 * i + 1] * 65_536 + be_bytes(
            words,
        )[4 * i + 2] * 256 + be_bytes(words)[4 * i + 3],
        words[i] == le_bytes(words)[4 * i] + le_bytes(words)[4 * i + 1] * 256 + le_bytes(words)[4 * i + 2]
            * 65_536 + le_bytes(words)[4 * i + 3] * 16_777_216,
    decreases words.len(),
{
    lemma_lengths(words);
    let (rest, last) = (words.drop_last(), words.last());
    lemma_lengths(rest);
    if i < rest.len() {
        law_bytes_make_up_their_words(rest, i);
    } else {
        crate::bytes::law_be32_puts_the_heaviest_byte_first(last);
    }
}

/// The words of a swarm are its agents' words, twelve to an agent: position, species, velocity, phase,
/// direction and colour.
pub proof fn law_agents_take_twelve_words(boids: Seq<Boid>, i: int)
    requires
        0 <= i < boids.len(),
    ensures
        boid_words(boids).len() == 12 * boids.len(),
        boid_words(boids).subrange(12 * i, 12 * i + 12) == boids[i].pos@ + seq![boids[i].species]
            + boids[i].vel@ + seq![boids[i].phase] + boids[i].prev_dir@ + seq![boids[i].color_seed],
    decreases boids.len(),
{
    lemma_boid_words_len(boids);
    let (rest, last) = (boids.drop_last(), boids.last());
    lemma_boid_words_len(rest);
    lemma_one_boid(last);
    if i < rest.len() {
        law_agents_take_twelve_words(rest, i);
        assert(boid_words(boids).subrange(12 * i, 12 * i + 12) =~= boid_words(rest).subrange(
            12 * i,
            12 * i + 12,
        ));
    } else {
        assert(boid_words(boids).subrange(12 * i, 12 * i + 12) =~= crate::layout::flat(last.field_data()));
    }
}

} // verus!
