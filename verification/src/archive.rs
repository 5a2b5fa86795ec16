//! Files of particles. A file holds the number of particles and the number of bonds, then the
//! particles, each as sixteen words of four bytes, then whatever else belongs to the scene.
//! Words are stored lowest byte first.
use vstd::arithmetic::div_mod::{
    lemma_fundamental_div_mod, lemma_fundamental_div_mod_converse,
    lemma_mod_division_less_than_divisor,
};
use vstd::prelude::*;
use vstd::slice::{slice_subrange, slice_to_vec};
use crate::particle::Particle;
use crate::single::Single;
use crate::source::{follows_all, restored, WorldSource, WorldSources};

verus! {

/// Bytes of the header.
pub const HEADER_SIZE: u64 = 8;

/// Bytes of a particle.
pub const PARTICLE_SIZE: u64 = 64;

/// The bytes of a word, lowest first.
pub open spec fn le(w: u32) -> Seq<u8> {
    seq![
        (w % 256) as u8,
        (w / 256 % 256) as u8,
        (w / 65536 % 256) as u8,
        (w / 16777216) as u8,
    ]
}

/// The words of a particle, in the order in which a file holds them.
pub open spec fn words_of(p: Particle) -> Seq<u32> {
    seq![
        p.pos@[0].bits,
        p.pos@[1].bits,
        p.vel@[0].bits,
        p.vel@[1].bits,
        p.links@[0] as u32,
        p.links@[1] as u32,
        p.links@[2] as u32,
        p.links@[3] as u32,
        p.links@[4] as u32,
        p.links@[5] as u32,
        p.charge.bits,
        p.angle.bits,
        p.temperature.bits,
        p.mat_type,
        p.inv_mass.bits,
        p.grav_scale.bits,
    ]
}

/// The bytes of a list of particles.
pub open spec fn body(ps: Seq<Particle>) -> Seq<u8> {
    Seq::new(64 * ps.len(), |i: int| le(words_of(ps[i / 64])[i % 64 / 4])[i % 4])
}

/// How many of a particle's slots hold a link, among the first `k`.
pub open spec fn held_links(links: Seq<i32>, k: int) -> int
    decreases k,
{
    if k <= 0 {
        0
    } else {
        held_links(links, k - 1) + if links[k - 1] >= 0 {
            1int
        } else {
            0int
        }
    }
}

/// How many link slots of the first `n` particles hold a link.
pub open spec fn held_by(ps: Seq<Particle>, n: int) -> int
    decreases n,
{
    if n <= 0 {
        0
    } else {
        held_by(ps, n - 1) + held_links(ps[n - 1].links@, 6)
    }
}

/// The number of bonds: each takes up a slot at both of its ends.
pub open spec fn hinges(ps: Seq<Particle>) -> int {
    held_by(ps, ps.len() as int) / 2
}

/// The file of a scene: header, particles, and the rest.
pub open spec fn image(ps: Seq<Particle>, rest: Seq<u8>) -> Seq<u8> {
    le(ps.len() as u32) + le(hinges(ps) as u32) + body(ps) + rest
}

/// Where the particles of a file that holds `count` of them end.
pub open spec fn body_end(count: int) -> int {
    HEADER_SIZE + PARTICLE_SIZE * count
}

/// `w` is the word at `at`.
pub open spec fn word_at(bytes: Seq<u8>, at: int, w: u32) -> bool {
    le(w) == bytes.subrange(at, at + 4)
}

/// The file holds a header that says `count`, and as many particles as that.
pub open spec fn holds(bytes: Seq<u8>, count: u32) -> bool {
    &&& bytes.len() >= HEADER_SIZE
    &&& word_at(bytes, 0, count)
    &&& bytes.len() >= body_end(count as int)
}

/// The file holds a header and as many particles as it says.
pub open spec fn readable(bytes: Seq<u8>) -> bool {
    exists|count: u32| holds(bytes, count)
}

/// What reading a file gives: its particles, and the bytes after them.
pub open spec fn reads_as(bytes: Seq<u8>, ps: Seq<Particle>, rest: Seq<u8>) -> bool {
    &&& ps.len() <= u32::MAX
    &&& holds(bytes, ps.len() as u32)
    &&& body(ps) == bytes.subrange(8, body_end(ps.len() as int))
    &&& rest == bytes.subrange(body_end(ps.len() as int), bytes.len() as int)
}

proof fn lemma_le_injective(a: u32, b: u32)
    requires
        le(a) == le(b),
    ensures
        a == b,
{
    assert(le(a)[0] == le(b)[0] && le(a)[1] == le(b)[1] && le(a)[2] == le(b)[2] && le(a)[3]
        == le(b)[3]);
}

proof fn lemma_words_injective(p: Particle, q: Particle)
    requires
        words_of(p) == words_of(q),
    ensures
        p == q,
{
    assert forall|k: int| 0 <= k < 16 implies words_of(p)[k] == words_of(q)[k] by {}
    assert(words_of(p)[0] == words_of(q)[0] && words_of(p)[1] == words_of(q)[1]);
    assert(words_of(p)[2] == words_of(q)[2] && words_of(p)[3] == words_of(q)[3]);
    assert(p.pos =~= q.pos) by {
        assert(p.pos@ =~= q.pos@);
    }
    assert(p.vel =~= q.vel) by {
        assert(p.vel@ =~= q.vel@);
    }
    assert forall|k: int| 0 <= k < 6 implies p.links@[k] == q.links@[k] by {
        assert(words_of(p)[4 + k] == words_of(q)[4 + k]);
        let (a, b) = (p.links@[k], q.links@[k]);
        assert(a as u32 == b as u32 ==> a == b) by (bit_vector);
    }
    assert(p.links =~= q.links) by {
        assert(p.links@ =~= q.links@);
    }
    assert(words_of(p)[10] == words_of(q)[10] && words_of(p)[11] == words_of(q)[11]);
    assert(words_of(p)[12] == words_of(q)[12] && words_of(p)[13] == words_of(q)[13]);
    assert(words_of(p)[14] == words_of(q)[14] && words_of(p)[15] == words_of(q)[15]);
}

proof fn lemma_body_injective(ps: Seq<Particle>, qs: Seq<Particle>)
    requires
        body(ps) == body(qs),
    ensures
        ps == qs,
{
    assert(64 * ps.len() == body(ps).len() == body(qs).len() == 64 * qs.len());
    assert forall|i: int| 0 <= i < ps.len() implies ps[i] == qs[i] by {
        assert forall|w: int| 0 <= w < 16 implies words_of(ps[i])[w] == words_of(qs[i])[w] by {
            let at = 64 * i + 4 * w;
            assert forall|k: int| 0 <= k < 4 implies le(words_of(ps[i])[w])[k] == le(
                words_of(qs[i])[w],
            )[k] by {
                let b = at + k;
                lemma_byte_at(i, w, k);
                assert(body(ps)[b] == le(words_of(ps[b / 64])[b % 64 / 4])[b % 4]);
                assert(body(qs)[b] == le(words_of(qs[b / 64])[b % 64 / 4])[b % 4]);
            }
            assert(le(words_of(ps[i])[w]) =~= le(words_of(qs[i])[w]));
            lemma_le_injective(words_of(ps[i])[w], words_of(qs[i])[w]);
        }
        assert(words_of(ps[i]) =~= words_of(qs[i]));
        lemma_words_injective(ps[i], qs[i]);
    }
    assert(ps =~= qs);
}

/// Calls `bytemuck::cast_slice` from groups of four bytes to bytes. The contract claims that the
/// bytes come out group after group, each in its order.
#[verifier::external_body]
fn join_groups(groups: &Vec<[u8; 4]>) -> (r: Vec<u8>)
    ensures
        r@.len() == 4 * groups@.len(),
        forall|i: int| 0 <= i < r@.len() ==> #[trigger] r@[i] == groups@[i / 4]@[i % 4],
{
    bytemuck::cast_slice::<[u8; 4], u8>(groups).to_vec()
}

/// Calls `bytemuck::cast_slice` from bytes to groups of four bytes. The contract claims that the
/// groups are the bytes in their order; the call panics where a byte would be left over.
#[verifier::external_body]
fn split_groups(bytes: &[u8]) -> (r: Vec<[u8; 4]>)
    requires
        bytes@.len() % 4 == 0,
    ensures
        4 * r@.len() == bytes@.len(),
        forall|i: int, k: int|
            0 <= i < r@.len() && 0 <= k < 4 ==> #[trigger] r@[i]@[k] == bytes@[4 * i + k],
{
    bytemuck::cast_slice::<u8, [u8; 4]>(bytes).to_vec()
}

/// The bytes of a word.
fn put_word(w: u32) -> (r: [u8; 4])
    ensures
        r@ == le(w),
{
    let r: [u8; 4] = [
        (w % 256) as u8,
        (w / 256 % 256) as u8,
        (w / 65536 % 256) as u8,
        (w / 16777216) as u8,
    ];
    assert(r@ =~= le(w));
    r
}

/// The word that has the given bytes.
fn get_word(b: [u8; 4]) -> (r: u32)
    ensures
        le(r) == b@,
{
    let (b0, b1, b2, b3) = (b[0], b[1], b[2], b[3]);
    let r: u32 = b0 as u32 + b1 as u32 * 256 + b2 as u32 * 65536 + b3 as u32 * 16777216;
    assert((r % 256) as u8 == b0 && (r / 256 % 256) as u8 == b1 && (r / 65536 % 256) as u8 == b2 && (
    r / 16777216) as u8 == b3) by (bit_vector)
        requires
            r == b0 as u32 + b1 as u32 * 256 + b2 as u32 * 65536 + b3 as u32 * 16777216,
    ;
    assert(le(r) =~= b@);
    r
}

/// The number of bonds of a list of particles.
pub fn hinge_count(particles: &Vec<Particle>) -> (r: u32)
    requires
        6 * particles@.len() <= u32::MAX,
    ensures
        r == hinges(particles@),
{
    let mut held: u32 = 0;
    let mut i: usize = 0;
    while i < particles.len()
        invariant
            i <= particles@.len(),
            6 * particles@.len() <= u32::MAX,
            held == held_by(particles@, i as int),
            held <= 6 * i,
        decreases particles@.len() - i,
    {
        let mut k: usize = 0;
        let ghost before = held;
        while k < 6
            invariant
                k <= 6,
                i < particles@.len(),
                6 * particles@.len() <= u32::MAX,
                before <= 6 * i,
                held == before + held_links(particles@[i as int].links@, k as int),
                held <= before + k,
            decreases 6 - k,
        {
            if particles[i].links[k] >= 0 {
                held += 1;
            }
            k += 1;
        }
        i += 1;
    }
    held / 2
}

/// The words of a particle, each as its bytes.
fn put_particle(p: &Particle, groups: &mut Vec<[u8; 4]>)
    ensures
        final(groups)@.len() == old(groups)@.len() + 16,
        forall|i: int|
            0 <= i < old(groups)@.len() ==> final(groups)@[i] == old(groups)@[i],
        forall|w: int|
            0 <= w < 16 ==> (#[trigger] final(groups)@[old(groups)@.len() + w])@ == le(
                words_of(*p)[w],
            ),
{
    groups.push(put_word(p.pos[0].bits));
    groups.push(put_word(p.pos[1].bits));
    groups.push(put_word(p.vel[0].bits));
    groups.push(put_word(p.vel[1].bits));
    groups.push(put_word(p.links[0] as u32));
    groups.push(put_word(p.links[1] as u32));
    groups.push(put_word(p.links[2] as u32));
    groups.push(put_word(p.links[3] as u32));
    groups.push(put_word(p.links[4] as u32));
    groups.push(put_word(p.links[5] as u32));
    groups.push(put_word(p.charge.bits));
    groups.push(put_word(p.angle.bits));
    groups.push(put_word(p.temperature.bits));
    groups.push(put_word(p.mat_type));
    groups.push(put_word(p.inv_mass.bits));
    groups.push(put_word(p.grav_scale.bits));
}

/// The particle whose words start at `at`.
fn get_particle(groups: &Vec<[u8; 4]>, at: usize) -> (p: Particle)
    requires
        at + 16 <= groups@.len(),
    ensures
        forall|w: int| 0 <= w < 16 ==> le(#[trigger] words_of(p)[w]) == groups@[at + w]@,
{
    let n: usize = groups.len();
    assert(at + 16 <= n);
    let l0: u32 = get_word(groups[at + 4]);
    let l1: u32 = get_word(groups[at + 5]);
    let l2: u32 = get_word(groups[at + 6]);
    let l3: u32 = get_word(groups[at + 7]);
    let l4: u32 = get_word(groups[at + 8]);
    let l5: u32 = get_word(groups[at + 9]);
    assert(l0 as i32 as u32 == l0 && l1 as i32 as u32 == l1 && l2 as i32 as u32 == l2 && l3 as i32
        as u32 == l3 && l4 as i32 as u32 == l4 && l5 as i32 as u32 == l5) by (bit_vector);
    Particle {
        pos: [
            Single::from_bits(get_word(groups[at])),
            Single::from_bits(get_word(groups[at + 1])),
        ],
        vel: [
            Single::from_bits(get_word(groups[at + 2])),
            Single::from_bits(get_word(groups[at + 3])),
        ],
        links: [l0 as i32, l1 as i32, l2 as i32, l3 as i32, l4 as i32, l5 as i32],
        charge: Single::from_bits(get_word(groups[at + 10])),
        angle: Single::from_bits(get_word(groups[at + 11])),
        temperature: Single::from_bits(get_word(groups[at + 12])),
        mat_type: get_word(groups[at + 13]),
        inv_mass: Single::from_bits(get_word(groups[at + 14])),
        grav_scale: Single::from_bits(get_word(groups[at + 15])),
    }
}

/// The words of the particles are those groups of bytes, one after the other.
#[verifier::opaque]
pub open spec fn made_of(ps: Seq<Particle>, groups: Seq<[u8; 4]>) -> bool {
    &&& groups.len() == 16 * ps.len()
    &&& forall|j: int, w: int|
        0 <= j < ps.len() && 0 <= w < 16 ==> le(#[trigger] words_of(ps[j])[w]) == groups[16 * j
            + w]@
}

/// The place of byte `k` of word `w` of particle `j`.
proof fn lemma_byte_at(j: int, w: int, k: int)
    requires
        0 <= w < 16,
        0 <= k < 4,
    ensures
        (64 * j + 4 * w + k) / 64 == j,
        (64 * j + 4 * w + k) % 64 / 4 == w,
        (64 * j + 4 * w + k) % 4 == k,
{
    let b = 64 * j + 4 * w + k;
    lemma_fundamental_div_mod_converse(b, 64, j, 4 * w + k);
    lemma_fundamental_div_mod_converse(4 * w + k, 4, w, k);
    lemma_fundamental_div_mod_converse(b, 4, 16 * j + w, k);
}

/// Where a byte stands: in which particle, in which word of it, and in which place of the word.
proof fn lemma_place_of_byte(b: int, count: int)
    requires
        0 <= b < 64 * count,
    ensures
        0 <= b / 64 < count,
        0 <= b % 64 / 4 < 16,
        0 <= b % 4 < 4,
        4 * (16 * (b / 64) + b % 64 / 4) + b % 4 == b,
{
    let (j, r) = (b / 64, b % 64);
    lemma_fundamental_div_mod(b, 64);
    lemma_mod_division_less_than_divisor(b, 64);
    let (w, k) = (r / 4, r % 4);
    lemma_fundamental_div_mod(r, 4);
    lemma_mod_division_less_than_divisor(r, 4);
    lemma_byte_at(j, w, k);
}

/// Groups of bytes that were joined lie one after the other.
proof fn lemma_joined(groups: Seq<[u8; 4]>, bytes: Seq<u8>)
    requires
        bytes.len() == 4 * groups.len(),
        forall|i: int| 0 <= i < bytes.len() ==> #[trigger] bytes[i] == groups[i / 4]@[i % 4],
    ensures
        forall|i: int, k: int|
            0 <= i < groups.len() && 0 <= k < 4 ==> #[trigger] groups[i]@[k] == bytes[4 * i + k],
{
    assert forall|i: int, k: int| 0 <= i < groups.len() && 0 <= k < 4 implies #[trigger] groups[i]@[k]
        == bytes[4 * i + k] by {
        lemma_fundamental_div_mod_converse(4 * i + k, 4, i, k);
    }
}

/// One byte of particles whose words are the given groups of bytes.
proof fn lemma_byte_of_groups(ps: Seq<Particle>, groups: Seq<[u8; 4]>, stored: Seq<u8>, b: int)
    requires
        4 * groups.len() == stored.len(),
        forall|i: int, k: int|
            0 <= i < groups.len() && 0 <= k < 4 ==> #[trigger] groups[i]@[k] == stored[4 * i + k],
        made_of(ps, groups),
        0 <= b < stored.len(),
    ensures
        body(ps)[b] == stored[b],
{
    reveal(made_of);
    lemma_place_of_byte(b, ps.len() as int);
    let (j, w, k) = (b / 64, b % 64 / 4, b % 4);
    let word = words_of(ps[j])[w];
    assert(le(word) == groups[16 * j + w]@);
    assert(groups[16 * j + w]@[k] == stored[4 * (16 * j + w) + k]);
}

/// Particles whose words are the given groups of bytes have these bytes.
proof fn lemma_body_of_groups(ps: Seq<Particle>, groups: Seq<[u8; 4]>, stored: Seq<u8>)
    requires
        4 * groups.len() == stored.len(),
        forall|i: int, k: int|
            0 <= i < groups.len() && 0 <= k < 4 ==> #[trigger] groups[i]@[k] == stored[4 * i + k],
        made_of(ps, groups),
    ensures
        body(ps) == stored,
{
    assert(groups.len() == 16 * ps.len()) by {
        reveal(made_of);
    }
    assert forall|b: int| 0 <= b < stored.len() implies #[trigger] body(ps)[b] == stored[b] by {
        lemma_byte_of_groups(ps, groups, stored, b);
    }
    assert(body(ps) =~= stored);
}

/// The bytes of a list of particles.
pub fn particle_bytes(particles: &Vec<Particle>) -> (r: Vec<u8>)
    ensures
        r@ == body(particles@),
{
    let mut groups: Vec<[u8; 4]> = Vec::new();
    let mut i: usize = 0;
    while i < particles.len()
        invariant
            i <= particles@.len(),
            groups@.len() == 16 * i,
            forall|j: int, w: int|
                0 <= j < i && 0 <= w < 16 ==> le(#[trigger] words_of(particles@[j])[w])
                    == groups@[16 * j + w]@,
        decreases particles@.len() - i,
    {
        let ghost before = groups@;
        put_particle(&particles[i], &mut groups);
        assert forall|j: int, w: int| 0 <= j < i + 1 && 0 <= w < 16 implies le(
            #[trigger] words_of(particles@[j])[w],
        ) == groups@[16 * j + w]@ by {
            if j < i {
                assert(groups@[16 * j + w] == before[16 * j + w]);
            } else {
                assert(groups@[before.len() + w]@ == le(words_of(particles@[j])[w]));
            }
        }
        i += 1;
    }
    let r: Vec<u8> = join_groups(&groups);
    proof {
        assert(made_of(particles@, groups@)) by {
            reveal(made_of);
        }
        lemma_joined(groups@, r@);
        lemma_body_of_groups(particles@, groups@, r@);
    }
    r
}

/// Writes a file.
pub fn encode(particles: &Vec<Particle>, rest: &Vec<u8>) -> (r: Vec<u8>)
    requires
        6 * particles@.len() <= u32::MAX,
    ensures
        r@ == image(particles@, rest@),
{
    let count: u32 = particles.len() as u32;
    let bonds: u32 = hinge_count(particles);
    let mut head: Vec<[u8; 4]> = Vec::new();
    head.push(put_word(count));
    head.push(put_word(bonds));
    let mut r: Vec<u8> = join_groups(&head);
    assert(r@ =~= le(count) + le(bonds));
    append_bytes(&mut r, &particle_bytes(particles));
    append_bytes(&mut r, rest);
    r
}

/// Appends bytes to others.
fn append_bytes(to: &mut Vec<u8>, more: &Vec<u8>)
    ensures
        final(to)@ == old(to)@ + more@,
{
    let ghost start = to@;
    let mut k: usize = 0;
    while k < more.len()
        invariant
            k <= more@.len(),
            to@ == start + more@.subrange(0, k as int),
        decreases more@.len() - k,
    {
        to.push(more[k]);
        assert(to@ =~= start + more@.subrange(0, k + 1));
        k += 1;
    }
    assert(more@.subrange(0, more@.len() as int) =~= more@);
}

/// Reads the header: the number of particles and the number of bonds. `None` where the file is
/// too short for one.
pub fn read_header(bytes: &Vec<u8>) -> (r: Option<(u32, u32)>)
    ensures
        r is Some <==> bytes@.len() >= HEADER_SIZE,
        r matches Some((count, bonds)) ==> word_at(bytes@, 0, count) && word_at(bytes@, 4, bonds),
{
    if bytes.len() < HEADER_SIZE as usize {
        return None;
    }
    let count: u32 = get_word([bytes[0], bytes[1], bytes[2], bytes[3]]);
    let bonds: u32 = get_word([bytes[4], bytes[5], bytes[6], bytes[7]]);
    assert(le(count) =~= bytes@.subrange(0, 4));
    assert(le(bonds) =~= bytes@.subrange(4, 8));
    Some((count, bonds))
}

/// The particles whose words are the given groups of bytes.
fn get_particles(groups: &Vec<[u8; 4]>) -> (ps: Vec<Particle>)
    requires
        groups@.len() % 16 == 0,
    ensures
        made_of(ps@, groups@),
{
    let n: usize = groups.len();
    let count: usize = n / 16;
    let mut ps: Vec<Particle> = Vec::new();
    let mut i: usize = 0;
    while i < count
        invariant
            i <= count,
            groups@.len() == n,
            n == 16 * count,
            ps@.len() == i,
            forall|j: int, w: int|
                0 <= j < i && 0 <= w < 16 ==> le(#[trigger] words_of(ps@[j])[w]) == groups@[16 * j
                    + w]@,
        decreases count - i,
    {
        let p: Particle = get_particle(groups, 16 * i);
        ps.push(p);
        i += 1;
    }
    proof {
        reveal(made_of);
    }
    ps
}

/// Bytes of whole particles are whole words, sixteen for each particle.
proof fn lemma_whole_records(bytes: int)
    requires
        bytes % 64 == 0,
    ensures
        bytes % 4 == 0,
        forall|words: int| 4 * words == bytes ==> #[trigger] (words % 16) == 0,
{
    let count = bytes / 64;
    lemma_fundamental_div_mod(bytes, 64);
    lemma_fundamental_div_mod_converse(bytes, 4, 16 * count, 0);
    assert forall|words: int| 4 * words == bytes implies #[trigger] (words % 16) == 0 by {
        lemma_fundamental_div_mod_converse(words, 16, count, 0);
    }
}

/// The particles that have the given bytes. `None` where a piece of a particle is left over.
pub fn particles_of(bytes: &Vec<u8>) -> (r: Option<Vec<Particle>>)
    ensures
        r is Some <==> bytes@.len() % 64 == 0,
        r matches Some(ps) ==> body(ps@) == bytes@,
{
    if bytes.len() % 64 != 0 {
        return None;
    }
    proof {
        lemma_whole_records(bytes@.len() as int);
    }
    let groups: Vec<[u8; 4]> = split_groups(bytes.as_slice());
    let ps: Vec<Particle> = get_particles(&groups);
    proof {
        lemma_body_of_groups(ps@, groups@, bytes@);
    }
    Some(ps)
}

/// Reads a file: its particles and the bytes after them. `None` where the file is shorter than
/// its header says.
pub fn decode(bytes: &Vec<u8>) -> (r: Option<(Vec<Particle>, Vec<u8>)>)
    ensures
        r is Some <==> exists|count: u32| holds(bytes@, count),
        r is Some <==> readable(bytes@),
        r matches Some((ps, rest)) ==> reads_as(bytes@, ps@, rest@),
{
    let header: Option<(u32, u32)> = read_header(bytes);
    let count: u32 = match header {
        None => {
            return None;
        },
        Some((count, _)) => count,
    };
    proof {
        assert forall|other: u32| word_at(bytes@, 0, other) implies other == count by {
            lemma_le_injective(other, count);
        }
    }
    let len: usize = bytes.len();
    if (len as u64) < HEADER_SIZE + PARTICLE_SIZE * count as u64 {
        return None;
    }
    assert(holds(bytes@, count));
    let end: usize = (HEADER_SIZE + PARTICLE_SIZE * count as u64) as usize;
    let stored: Vec<u8> = slice_to_vec(slice_subrange(bytes.as_slice(), 8, end));
    assert(stored@.len() == 64 * count);
    let ps: Vec<Particle> = particles_of(&stored).unwrap();
    assert(body(ps@).len() == 64 * ps@.len());
    let rest: Vec<u8> = slice_to_vec(slice_subrange(bytes.as_slice(), end, len));
    Some((ps, rest))
}

/// A file can be read in one way only.
pub proof fn law_reading_is_unique(
    bytes: Seq<u8>,
    ps: Seq<Particle>,
    rest: Seq<u8>,
    other_ps: Seq<Particle>,
    other_rest: Seq<u8>,
)
    requires
        reads_as(bytes, ps, rest),
        reads_as(bytes, other_ps, other_rest),
    ensures
        ps == other_ps,
        rest == other_rest,
{
    lemma_le_injective(ps.len() as u32, other_ps.len() as u32);
    lemma_body_injective(ps, other_ps);
}

/// What was written is what is read: reading a written file gives back its particles and the
/// bytes after them.
pub proof fn law_read_gives_back_what_was_written(ps: Seq<Particle>, rest: Seq<u8>)
    requires
        6 * ps.len() <= u32::MAX,
    ensures
        holds(image(ps, rest), ps.len() as u32),
        reads_as(image(ps, rest), ps, rest),
        forall|qs: Seq<Particle>, tail: Seq<u8>|
            reads_as(image(ps, rest), qs, tail) ==> qs == ps && tail == rest,
{
    let bytes = image(ps, rest);
    assert(bytes.subrange(0, 4) =~= le(ps.len() as u32));
    assert(bytes.subrange(8, body_end(ps.len() as int)) =~= body(ps));
    assert(bytes.subrange(body_end(ps.len() as int), bytes.len() as int) =~= rest);
    assert forall|qs: Seq<Particle>, tail: Seq<u8>| reads_as(bytes, qs, tail) implies qs == ps
        && tail == rest by {
        law_reading_is_unique(bytes, ps, rest, qs, tail);
    }
}

/// A scene that was saved comes back whole when it is loaded, over whatever was there: its
/// particles, its sources, and the number that the next source gets. `written` and `parsed` are how
/// sources become text and text becomes sources; what is written is not empty and can be parsed.
pub proof fn law_saved_scene_comes_back(
    ps: Seq<Particle>,
    sources: Seq<WorldSource>,
    written: spec_fn(Seq<WorldSource>) -> Seq<u8>,
    parsed: spec_fn(Seq<u8>) -> Option<Seq<WorldSource>>,
    loaded: Seq<Particle>,
    rest: Seq<u8>,
    before: WorldSources,
    after: WorldSources,
)
    requires
        6 * ps.len() <= u32::MAX,
        written(sources).len() > 0,
        parsed(written(sources)) == Some(sources),
        reads_as(image(ps, written(sources)), loaded, rest),
        restored(before, rest.len() == 0, parsed(rest), after),
    ensures
        loaded == ps,
        after.list@ == sources,
        follows_all(sources, after.next_id),
        word_at(image(ps, written(sources)), 0, ps.len() as u32),
        word_at(image(ps, written(sources)), 4, hinges(ps) as u32),
{
    let bytes = image(ps, written(sources));
    law_read_gives_back_what_was_written(ps, written(sources));
    assert(bytes.subrange(0, 4) =~= le(ps.len() as u32));
    assert(bytes.subrange(4, 8) =~= le(hinges(ps) as u32));
}

/// The bytes of a list of particles give back that list and no other.
pub proof fn law_bytes_give_back_the_particles(ps: Seq<Particle>, qs: Seq<Particle>)
    ensures
        body(ps).len() % 64 == 0,
        body(ps) == body(qs) ==> ps == qs,
{
    if body(ps) == body(qs) {
        lemma_body_injective(ps, qs);
    }
}

/// The header of a written file tells how many particles and bonds it holds.
pub proof fn law_header_agrees(ps: Seq<Particle>, rest: Seq<u8>, count: u32, bonds: u32)
    requires
        6 * ps.len() <= u32::MAX,
        word_at(image(ps, rest), 0, count),
        word_at(image(ps, rest), 4, bonds),
    ensures
        count == ps.len(),
        bonds == hinges(ps),
{
    lemma_held_bound(ps, ps.len() as int);
    assert(image(ps, rest).subrange(0, 4) =~= le(ps.len() as u32));
    assert(image(ps, rest).subrange(4, 8) =~= le(hinges(ps) as u32));
    lemma_le_injective(count, ps.len() as u32);
    lemma_le_injective(bonds, hinges(ps) as u32);
}

proof fn lemma_held_bound(ps: Seq<Particle>, n: int)
    requires
        0 <= n,
    ensures
        0 <= held_by(ps, n) <= 6 * n,
    decreases n,
{
    if n > 0 {
        lemma_held_bound(ps, n - 1);
        reveal_with_fuel(held_links, 7);
    }
}

/// A file cut off before its last particle ends is not read.
pub proof fn law_cut_off_file_is_refused(ps: Seq<Particle>, rest: Seq<u8>, n: int, count: u32)
    requires
        6 * ps.len() <= u32::MAX,
        0 <= n < body_end(ps.len() as int),
    ensures
        !holds(image(ps, rest).subrange(0, n), count),
{
    let cut = image(ps, rest).subrange(0, n);
    if holds(cut, count) {
        assert(cut.subrange(0, 4) =~= le(ps.len() as u32));
        lemma_le_injective(count, ps.len() as u32);
    }
}

/// The bytes of a word add up to it.
proof fn lemma_word_of_bytes(w: u32)
    ensures
        le(w).len() == 4,
        le(w)[0] + 256 * le(w)[1] + 65536 * le(w)[2] + 16777216 * le(w)[3] == w,
{
    assert((w % 256) as u8 == w % 256 && (w / 256 % 256) as u8 == w / 256 % 256 && (w / 65536
        % 256) as u8 == w / 65536 % 256 && (w / 16777216) as u8 == w / 16777216) by (bit_vector);
    assert(w % 256 + 256 * (w / 256 % 256) + 65536 * (w / 65536 % 256) + 16777216 * (w / 16777216)
        == w) by (bit_vector);
}

proof fn lemma_word_in_body(ps: Seq<Particle>, i: int, w: int)
    requires
        0 <= i < ps.len(),
        0 <= w < 16,
    ensures
        ({
            let at = 64 * i + 4 * w;
            let b = body(ps);
            b[at] + 256 * b[at + 1] + 65536 * b[at + 2] + 16777216 * b[at + 3] == words_of(ps[i])[w]
        }),
{
    let at = 64 * i + 4 * w;
    lemma_byte_at(i, w, 0);
    lemma_byte_at(i, w, 1);
    lemma_byte_at(i, w, 2);
    lemma_byte_at(i, w, 3);
    lemma_word_of_bytes(words_of(ps[i])[w]);
    assert(body(ps)[at] == le(words_of(ps[i])[w])[0]);
    assert(body(ps)[at + 1] == le(words_of(ps[i])[w])[1]);
    assert(body(ps)[at + 2] == le(words_of(ps[i])[w])[2]);
    assert(body(ps)[at + 3] == le(words_of(ps[i])[w])[3]);
}

/// A particle takes 64 bytes: sixteen words, lowest byte first, for position, velocity, the six
/// links, charge, angle, temperature, type, inverse mass and gravity factor, in this order.
pub proof fn law_particle_is_sixteen_words(particles: Vec<Particle>, r: Vec<u8>, i: int, w: int)
    requires
        call_ensures(particle_bytes, (&particles,), r),
        0 <= i < particles@.len(),
        0 <= w < 16,
    ensures
        r@.len() == 64 * particles@.len(),
        ({
            let p = particles@[i];
            let at = 64 * i + 4 * w;
            let word = r@[at] + 256 * r@[at + 1] + 65536 * r@[at + 2] + 16777216 * r@[at + 3];
            &&& w == 0 ==> word == p.pos@[0].bits
            &&& w == 1 ==> word == p.pos@[1].bits
            &&& w == 2 ==> word == p.vel@[0].bits
            &&& w == 3 ==> word == p.vel@[1].bits
            &&& w == 4 ==> word == p.links@[0] as u32
            &&& w == 5 ==> word == p.links@[1] as u32
            &&& w == 6 ==> word == p.links@[2] as u32
            &&& w == 7 ==> word == p.links@[3] as u32
            &&& w == 8 ==> word == p.links@[4] as u32
            &&& w == 9 ==> word == p.links@[5] as u32
            &&& w == 10 ==> word == p.charge.bits
            &&& w == 11 ==> word == p.angle.bits
            &&& w == 12 ==> word == p.temperature.bits
            &&& w == 13 ==> word == p.mat_type
            &&& w == 14 ==> word == p.inv_mass.bits
            &&& w == 15 ==> word == p.grav_scale.bits
        }),
{
    lemma_word_in_body(particles@, i, w);
}

/// The bytes of particles are whole particles, and give back exactly these; bytes with a piece of a
/// particle left over give none.
pub proof fn law_particles_come_back_from_their_bytes(
    particles: Vec<Particle>,
    bytes: Vec<u8>,
    back: Option<Vec<Particle>>,
    any: Vec<u8>,
    read: Option<Vec<Particle>>,
    again: Vec<u8>,
)
    requires
        call_ensures(particle_bytes, (&particles,), bytes),
        call_ensures(particles_of, (&bytes,), back),
        call_ensures(particles_of, (&any,), read),
        read matches Some(ps) ==> call_ensures(particle_bytes, (&ps,), again),
    ensures
        back is Some,
        back->0@ == particles@,
        read is Some <==> any@.len() % 64 == 0,
        read is Some ==> again@ == any@,
{
    lemma_fundamental_div_mod_converse(bytes@.len() as int, 64, particles@.len() as int, 0);
    lemma_body_injective(back->0@, particles@);
}

/// A file is its header, the bytes of its particles and the rest: the number of particles, then the
/// number of bonds, each in four bytes, lowest first.
pub proof fn law_file_is_header_particles_and_rest(
    particles: Vec<Particle>,
    rest: Vec<u8>,
    file: Vec<u8>,
    bonds: u32,
    bytes: Vec<u8>,
    k: int,
)
    requires
        6 * particles@.len() <= u32::MAX,
        call_ensures(encode, (&particles, &rest), file),
        call_ensures(hinge_count, (&particles,), bonds),
        call_ensures(particle_bytes, (&particles,), bytes),
    ensures
        file@.len() == 8 + 64 * particles@.len() + rest@.len(),
        file@[0] + 256 * file@[1] + 65536 * file@[2] + 16777216 * file@[3] == particles@.len(),
        file@[4] + 256 * file@[5] + 65536 * file@[6] + 16777216 * file@[7] == bonds,
        0 <= k < bytes@.len() ==> file@[8 + k] == bytes@[k],
        0 <= k < rest@.len() ==> file@[8 + 64 * particles@.len() + k] == rest@[k],
{
    lemma_held_bound(particles@, particles@.len() as int);
    lemma_word_of_bytes(particles@.len() as u32);
    lemma_word_of_bytes(bonds);
    let count = le(particles@.len() as u32);
    assert(file@[0] == count[0] && file@[1] == count[1] && file@[2] == count[2] && file@[3]
        == count[3]);
    assert(file@[4] == le(bonds)[0] && file@[5] == le(bonds)[1] && file@[6] == le(bonds)[2]
        && file@[7] == le(bonds)[3]);
}

/// Loading gives back what was saved: the particles, and the bytes after them.
pub proof fn law_loading_gives_back_what_was_saved(
    particles: Vec<Particle>,
    rest: Vec<u8>,
    file: Vec<u8>,
    r: Option<(Vec<Particle>, Vec<u8>)>,
    header: Option<(u32, u32)>,
    bonds: u32,
)
    requires
        6 * particles@.len() <= u32::MAX,
        call_ensures(encode, (&particles, &rest), file),
        call_ensures(decode, (&file,), r),
        call_ensures(read_header, (&file,), header),
        call_ensures(hinge_count, (&particles,), bonds),
    ensures
        r matches Some((ps, tail)) && ps@ == particles@ && tail@ == rest@,
        header == Some((particles@.len() as u32, bonds)),
{
    law_read_gives_back_what_was_written(particles@, rest@);
    assert(holds(file@, particles@.len() as u32));
    assert(readable(file@));
    match header {
        Some((count, other)) => {
            law_header_agrees(particles@, rest@, count, other);
        },
        None => {},
    }
}

/// A file is read exactly if it has a header and all the particles that this announces; what comes
/// out are as many particles, whose bytes follow the header, and all that is left.
pub proof fn law_reading_takes_what_the_header_says(
    file: Vec<u8>,
    r: Option<(Vec<Particle>, Vec<u8>)>,
    bytes: Vec<u8>,
    k: int,
)
    requires
        call_ensures(decode, (&file,), r),
        r matches Some(x) ==> call_ensures(particle_bytes, (&x.0,), bytes),
    ensures
        ({
            let count = file@[0] + 256 * file@[1] + 65536 * file@[2] + 16777216 * file@[3];
            &&& r is Some <==> file@.len() >= 8 && file@.len() >= 8 + 64 * count
            &&& r matches Some((ps, tail)) ==> {
                &&& ps@.len() == count
                &&& tail@.len() == file@.len() - 8 - 64 * count
                &&& 0 <= k < bytes@.len() ==> bytes@[k] == file@[8 + k]
                &&& 0 <= k < tail@.len() ==> tail@[k] == file@[8 + 64 * count + k]
            }
        }),
{
    let count = file@[0] + 256 * file@[1] + 65536 * file@[2] + 16777216 * file@[3];
    if file@.len() >= 8 {
        let first = file@.subrange(0, 4);
        let word = count as u32;
        let (b0, b1, b2, b3) = (file@[0], file@[1], file@[2], file@[3]);
        assert(0 <= count <= u32::MAX);
        lemma_le_of_bytes(b0, b1, b2, b3, word);
        assert(le(word) =~= first);
        assert(word_at(file@, 0, word));
        if file@.len() >= 8 + 64 * count {
            assert(holds(file@, word));
            assert(readable(file@));
        }
        if readable(file@) {
            let other = choose|other: u32| holds(file@, other);
            lemma_le_injective(other, word);
        }
    }
    match r {
        Some((ps, tail)) => {
            lemma_le_injective(ps@.len() as u32, count as u32);
            if 0 <= k < bytes@.len() {
                assert(file@.subrange(8, body_end(ps@.len() as int))[k] == file@[8 + k]);
            }
        },
        None => {},
    }
}

proof fn lemma_le_of_bytes(b0: u8, b1: u8, b2: u8, b3: u8, w: u32)
    requires
        w == b0 + 256 * b1 + 65536 * b2 + 16777216 * b3,
    ensures
        le(w) == seq![b0, b1, b2, b3],
{
    assert(w == b0 as u32 + b1 as u32 * 256 + b2 as u32 * 65536 + b3 as u32 * 16777216);
    assert((w % 256) as u8 == b0 && (w / 256 % 256) as u8 == b1 && (w / 65536 % 256) as u8 == b2 && (
    w / 16777216) as u8 == b3) by (bit_vector)
        requires
            w == b0 as u32 + b1 as u32 * 256 + b2 as u32 * 65536 + b3 as u32 * 16777216,
    ;
    assert(le(w) =~= seq![b0, b1, b2, b3]);
}

/// A header is read exactly if there are eight bytes: two words, lowest byte first.
pub proof fn law_header_is_two_words(bytes: Vec<u8>, r: Option<(u32, u32)>)
    requires
        call_ensures(read_header, (&bytes,), r),
    ensures
        r is Some <==> bytes@.len() >= 8,
        r matches Some((count, bonds)) ==> {
            &&& count == bytes@[0] + 256 * bytes@[1] + 65536 * bytes@[2] + 16777216 * bytes@[3]
            &&& bonds == bytes@[4] + 256 * bytes@[5] + 65536 * bytes@[6] + 16777216 * bytes@[7]
        },
{
    match r {
        Some((count, bonds)) => {
            lemma_word_of_bytes(count);
            lemma_word_of_bytes(bonds);
            let (a, b) = (bytes@.subrange(0, 4), bytes@.subrange(4, 8));
            assert(a[0] == bytes@[0] && a[1] == bytes@[1] && a[2] == bytes@[2] && a[3]
                == bytes@[3]);
            assert(b[0] == bytes@[4] && b[1] == bytes@[5] && b[2] == bytes@[6] && b[3]
                == bytes@[7]);
        },
        None => {},
    }
}

proof fn lemma_held_is_a_sum(ps: Seq<Particle>, n: int)
    requires
        0 <= n <= ps.len(),
    ensures
        held_by(ps, n) == ps.take(n).fold_left(
            0int,
            |sum: int, p: Particle|
                sum + p.links@.filter(|l: i32| l >= 0).len(),
        ),
    decreases n,
{
    let sum_up = |sum: int, p: Particle| sum + p.links@.filter(|l: i32| l >= 0).len();
    if n > 0 {
        lemma_held_is_a_sum(ps, n - 1);
        assert(ps.take(n).drop_last() =~= ps.take(n - 1));
        let links = ps[n - 1].links@;
        lemma_held_links_are_filtered(links, 6);
        assert(links.take(6) =~= links);
    }
}

proof fn lemma_held_links_are_filtered(links: Seq<i32>, k: int)
    requires
        0 <= k <= links.len(),
    ensures
        held_links(links, k) == links.take(k).filter(|l: i32| l >= 0).len(),
    decreases k,
{
    reveal(Seq::filter);
    if k > 0 {
        lemma_held_links_are_filtered(links, k - 1);
        assert(links.take(k).drop_last() =~= links.take(k - 1));
    }
}

/// Every bond takes up two of the slots that name a particle: the number of bonds is half the number
/// of these, over all particles.
pub proof fn law_bonds_are_half_the_links(particles: Vec<Particle>, r: u32)
    requires
        6 * particles@.len() <= u32::MAX,
        call_ensures(hinge_count, (&particles,), r),
    ensures
        r == particles@.fold_left(
            0int,
            |sum: int, p: Particle|
                sum + p.links@.filter(|l: i32| l >= 0).len(),
        ) / 2,
{
    lemma_held_is_a_sum(particles@, particles@.len() as int);
    assert(particles@.take(particles@.len() as int) =~= particles@);
}

} // verus!
