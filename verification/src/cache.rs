//! A cache of flattened paths, keyed by a hash of the path's verbs, the bit patterns of its
//! points and the flattening tolerance.
use std::collections::hash_map::DefaultHasher;
use std::collections::HashMap;
use std::hash::Hasher;
use vstd::prelude::*;
use vstd::std_specs::hash::DefaultHasherAdditionalSpecFns;
use crate::flatten::FlattenedPath;
use crate::path::PathVerb;

verus! {

broadcast use vstd::std_specs::hash::group_hash_axioms;

/// The byte that stands for a verb in a cache key.
pub open spec fn verb_code(v: PathVerb) -> u8 {
    match v {
        PathVerb::MoveTo => 0,
        PathVerb::LineTo => 1,
        PathVerb::QuadTo => 2,
        PathVerb::CubicTo => 3,
        PathVerb::Close => 4,
    }
}

/// The four bytes of `b`, least significant first.
pub open spec fn le_bytes(b: u32) -> Seq<u8> {
    seq![
        (b % 256) as u8,
        ((b / 256) % 256) as u8,
        ((b / 65536) % 256) as u8,
        ((b / 16777216) % 256) as u8,
    ]
}

/// The four bytes of `b`, most significant first.
pub open spec fn be_bytes(b: u32) -> Seq<u8> {
    seq![
        ((b / 16777216) % 256) as u8,
        ((b / 65536) % 256) as u8,
        ((b / 256) % 256) as u8,
        (b % 256) as u8,
    ]
}

/// The four bytes of `b` in the given byte order.
pub open spec fn word_bytes(b: u32, big_endian: bool) -> Seq<u8> {
    if big_endian {
        be_bytes(b)
    } else {
        le_bytes(b)
    }
}

/// What is fed to the hasher for a key, write by write: one byte for each verb, four bytes
/// for each point coordinate's bit pattern, four bytes for the tolerance's bit pattern,
/// words in the given byte order.
pub open spec fn key_writes(
    verbs: Seq<PathVerb>,
    point_bits: Seq<u32>,
    tolerance_bits: u32,
    big_endian: bool,
) -> Seq<Seq<u8>> {
    verbs.map_values(|v: PathVerb| seq![verb_code(v)]) + point_bits.map_values(
        |b: u32| word_bytes(b, big_endian),
    ) + seq![word_bytes(tolerance_bits, big_endian)]
}

fn verb_byte(v: PathVerb) -> (b: u8)
    ensures
        b == verb_code(v),
{
    match v {
        PathVerb::MoveTo => 0,
        PathVerb::LineTo => 1,
        PathVerb::QuadTo => 2,
        PathVerb::CubicTo => 3,
        PathVerb::Close => 4,
    }
}

/// `u32::to_ne_bytes`: the integer's bytes in the machine's native byte order, which is
/// either least significant first or most significant first. Which of the two is the
/// machine's is left unsaid.
#[verifier::external_body]
fn u32_ne_bytes(b: u32) -> (r: [u8; 4])
    ensures
        r@ == le_bytes(b) || r@ == be_bytes(b),
{
    b.to_ne_bytes()
}

/// Whether the machine stores integers most significant byte first, read from the native
/// bytes of `1`.
fn native_big_endian() -> (big: bool) {
    let probe = u32_ne_bytes(1);
    probe[0] == 0
}

/// Feeds the four bytes of `b` to the hasher in the given byte order.
fn write_u32(h: &mut DefaultHasher, b: u32, big_endian: bool)
    ensures
        final(h)@ == old(h)@.push(word_bytes(b, big_endian)),
{
    let bytes: [u8; 4] = if big_endian {
        [
            ((b / 16777216) % 256) as u8,
            ((b / 65536) % 256) as u8,
            ((b / 256) % 256) as u8,
            (b % 256) as u8,
        ]
    } else {
        [(b % 256) as u8, ((b / 256) % 256) as u8, ((b / 65536) % 256) as u8, ((b / 16777216) % 256) as u8]
    };
    h.write(bytes.as_slice());
    assert(bytes@ =~= word_bytes(b, big_endian));
}

/// The cache key of a path with its words hashed in the given byte order: the default
/// hasher's digest of its verbs, the bit patterns of its point coordinates (x then y for
/// each point) and the bit pattern of the tolerance.
pub fn make_key_in_order(
    verbs: &[PathVerb],
    point_bits: &[u32],
    tolerance_bits: u32,
    big_endian: bool,
) -> (key: u64)
    ensures
        key == DefaultHasher::spec_finish(
            key_writes(verbs@, point_bits@, tolerance_bits, big_endian),
        ),
{
    let mut h = DefaultHasher::new();
    let mut i: usize = 0;
    while i < verbs.len()
        invariant
            i <= verbs@.len(),
            h@ == verbs@.take(i as int).map_values(|v: PathVerb| seq![verb_code(v)]),
        decreases verbs@.len() - i,
    {
        let code: [u8; 1] = [verb_byte(verbs[i])];
        h.write(code.as_slice());
        assert(code@ =~= seq![verb_code(verbs@[i as int])]);
        assert(verbs@.take(i + 1).map_values(|v: PathVerb| seq![verb_code(v)]) =~= verbs@.take(
            i as int,
        ).map_values(|v: PathVerb| seq![verb_code(v)]).push(code@));
        i = i + 1;
    }
    assert(verbs@.take(i as int) =~= verbs@);
    let ghost head = h@;
    let mut j: usize = 0;
    while j < point_bits.len()
        invariant
            j <= point_bits@.len(),
            h@ == head + point_bits@.take(j as int).map_values(|b: u32| word_bytes(b, big_endian)),
        decreases point_bits@.len() - j,
    {
        write_u32(&mut h, point_bits[j], big_endian);
        assert(point_bits@.take(j + 1).map_values(|b: u32| word_bytes(b, big_endian))
            =~= point_bits@.take(j as int).map_values(|b: u32| word_bytes(b, big_endian)).push(
            word_bytes(point_bits@[j as int], big_endian),
        ));
        j = j + 1;
    }
    assert(point_bits@.take(j as int) =~= point_bits@);
    write_u32(&mut h, tolerance_bits, big_endian);
    assert(h@ =~= key_writes(verbs@, point_bits@, tolerance_bits, big_endian));
    h.finish()
}

/// The cache key of a path, its words hashed in the machine's native byte order, as
/// `make_key_in_order` computes it for that order.
pub fn make_key(verbs: &[PathVerb], point_bits: &[u32], tolerance_bits: u32) -> (key: u64)
    ensures
        key == DefaultHasher::spec_finish(key_writes(verbs@, point_bits@, tolerance_bits, false))
            || key == DefaultHasher::spec_finish(
            key_writes(verbs@, point_bits@, tolerance_bits, true),
        ),
{
    let big = native_big_endian();
    make_key_in_order(verbs, point_bits, tolerance_bits, big)
}

/// The cache after asking for `key`, when flattening would give `fresh`: unchanged if the
/// key is there, else with `fresh` stored under it.
pub open spec fn cache_after<P>(m: Map<u64, FlattenedPath<P>>, key: u64, fresh: FlattenedPath<P>) -> Map<
    u64,
    FlattenedPath<P>,
> {
    if m.contains_key(key) {
        m
    } else {
        m.insert(key, fresh)
    }
}

/// Flattened paths stored by key.
pub struct PathCache<P> {
    entries: HashMap<u64, FlattenedPath<P>>,
}

impl<P> View for PathCache<P> {
    type V = Map<u64, FlattenedPath<P>>;

    closed spec fn view(&self) -> Map<u64, FlattenedPath<P>> {
        self.entries@
    }
}

impl<P> PathCache<P> {
    pub fn new() -> (c: Self)
        ensures
            c@ == Map::<u64, FlattenedPath<P>>::empty(),
    {
        Self { entries: HashMap::new() }
    }

    /// The flattened path stored under `key`; when there is none, `flatten` is called once
    /// and what it returns is stored and handed back.
    pub fn get_or_flatten<F: FnOnce() -> FlattenedPath<P>>(&mut self, key: u64, flatten: F) -> (r:
        &FlattenedPath<P>)
        requires
            call_requires(flatten, ()),
        ensures
            final(self)@ == cache_after(old(self)@, key, *r),
            old(self)@.contains_key(key) ==> *r == old(self)@[key],
            !old(self)@.contains_key(key) ==> call_ensures(flatten, (), *r),
    {
        if !self.entries.contains_key(&key) {
            let flat = flatten();
            self.entries.insert(key, flat);
        }
        self.entries.get(&key).unwrap()
    }

    pub fn clear(&mut self)
        ensures
            final(self)@ == Map::<u64, FlattenedPath<P>>::empty(),
    {
        self.entries.clear();
    }

    pub fn len(&self) -> (n: usize)
        ensures
            n == self@.len(),
    {
        self.entries.len()
    }
}

impl<P> Default for PathCache<P> {
    fn default() -> (c: Self)
        ensures
            c@ == Map::<u64, FlattenedPath<P>>::empty(),
    {
        Self::new()
    }
}

/// Asking the cache for a key stores it, and asking again gives back what the first request
/// gave and leaves the cache as it was, whatever flattening would give the second time.
pub proof fn lemma_cache_answers_again<P>(
    m: Map<u64, FlattenedPath<P>>,
    key: u64,
    first: FlattenedPath<P>,
    second: FlattenedPath<P>,
)
    ensures
        cache_after(m, key, first).contains_key(key),
        cache_after(cache_after(m, key, first), key, second) == cache_after(m, key, first),
        cache_after(m, key, first)[key] == if m.contains_key(key) {
            m[key]
        } else {
            first
        },
{
}

} // verus!
