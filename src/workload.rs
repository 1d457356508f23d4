use vstd::multiset::Multiset;
use vstd::prelude::*;

use rand::Rng;
use rand::SeedableRng;
use rand::XorShiftRng;

use crate::header::zeros;

verus! {

#[verifier::external_type_specification]
#[verifier::external_body]
pub struct ExXorShiftRng(XorShiftRng);

/// Relies on rand::random: a seed drawn from the thread-local generator. Nothing is known
/// of its value.
#[verifier::external_body]
fn random_seed() -> (r: [u32; 4]) {
    rand::random::<[u32; 4]>()
}

/// Relies on XorShiftRng::from_seed, which panics on an all-zero seed.
#[verifier::external_body]
fn xorshift_from_seed(seed: [u32; 4]) -> (r: XorShiftRng)
    requires
        !(seed[0] == 0 && seed[1] == 0 && seed[2] == 0 && seed[3] == 0),
{
    <XorShiftRng as SeedableRng<[u32; 4]>>::from_seed(seed)
}

/// Relies on Rng::gen::<u32>: a uniformly drawn 32-bit number, any value possible.
#[verifier::external_body]
fn draw_u32(rng: &mut XorShiftRng) -> (r: u32) {
    rng.gen::<u32>()
}

/// The length of the key prefix that holds the sampled key index.
pub const KEY_PREFIX_LEN: usize = 4;

/// One operation of the workload. The key and value bytes stay in the generator's buffers.
pub enum Op {
    Get { tenant: u32 },
    Put { tenant: u32 },
}

impl Op {
    pub open spec fn is_get(self) -> bool {
        self is Get
    }

    pub open spec fn tenant_of(self) -> u32 {
        match self {
            Op::Get { tenant } => tenant,
            Op::Put { tenant } => tenant,
        }
    }
}

/// A key buffer of `len` bytes whose first four bytes hold `k` little-endian, the rest zero.
pub open spec fn key_image(k: u32, len: nat) -> Seq<u8> {
    seq![(k % 256) as u8, ((k / 256) % 256) as u8, ((k / 65536) % 256) as u8, (k / 16777216) as u8]
        + Seq::new((len - 4) as nat, |i: int| 0u8)
}

/// Whether a draw of `roll` makes a `get()`.
pub open spec fn draws_get(roll: u32, put_pct: usize) -> bool {
    roll % 100 >= put_pct
}

/// Generates Zipfian-skewed `get()` and `put()` operations over tenants and keys.
pub struct Pushback {
    /// Percent of operations that are `put()`s.
    pub put_pct: usize,
    pub rng: XorShiftRng,
    /// Keys are drawn from `[1, n_keys]`.
    pub n_keys: u32,
    /// Tenants are drawn from `[1, n_tenants]`.
    pub n_tenants: u32,
    /// The key of the last operation; only its first four bytes ever change.
    pub key_buf: Vec<u8>,
    /// The value of every `put()`: all zero.
    pub value_buf: Vec<u8>,
}

impl Pushback {
    pub open spec fn wf(&self) -> bool {
        &&& self.put_pct <= 100
        &&& self.key_buf@.len() >= KEY_PREFIX_LEN
        &&& exists|k: u32| self.key_buf@ == key_image(k, self.key_buf@.len())
        &&& self.value_buf@ == Seq::new(self.value_buf@.len(), |i: int| 0u8)
    }

    /// Whether `(tenant, key)` is a draw this generator accepts.
    pub open spec fn in_range(&self, tenant: u32, key: u32) -> bool {
        1 <= tenant <= self.n_tenants && 1 <= key <= self.n_keys
    }

    /// A generator with keys of `key_len` bytes and values of `value_len` zero bytes, over
    /// key indices `[1, n_keys]` and tenants `[1, n_tenants]`. The get/put choice comes from
    /// a generator seeded at random; the Zipfian ranks of tenant and key are drawn by the
    /// caller and handed to `abc`.
    pub fn new(
        key_len: usize,
        value_len: usize,
        n_keys: u32,
        put_pct: usize,
        n_tenants: u32,
    ) -> (r: Pushback)
        requires
            key_len >= KEY_PREFIX_LEN,
            put_pct <= 100,
        ensures
            r.wf(),
            r.put_pct == put_pct,
            r.n_keys == n_keys,
            r.n_tenants == n_tenants,
            r.key_buf@ == Seq::new(key_len as nat, |i: int| 0u8),
            r.value_buf@ == Seq::new(value_len as nat, |i: int| 0u8),
    {
        let mut seed = random_seed();
        if seed[0] == 0 && seed[1] == 0 && seed[2] == 0 && seed[3] == 0 {
            // The all-zero state is the one a xorshift generator never leaves.
            seed[0] = 1;
        }
        let key_buf = zeros(key_len);
        let value_buf = zeros(value_len);
        proof {
            lemma_key_image_zero(key_len as nat);
        }
        let r = Pushback {
            put_pct,
            rng: xorshift_from_seed(seed),
            n_keys,
            n_tenants,
            key_buf,
            value_buf,
        };
        assert(r.key_buf@ == key_image(0, r.key_buf@.len()));
        r
    }

    /// Turns one draw into an operation: a `get()` when `roll % 100 >= put_pct`, else a
    /// `put()`; the tenant is `tenant` and the key's first four bytes become `key`.
    pub fn choose_op(&mut self, roll: u32, tenant: u32, key: u32) -> (r: Op)
        requires
            old(self).wf(),
        ensures
            final(self).wf(),
            *final(self) == (Pushback { key_buf: final(self).key_buf, ..*old(self) }),
            final(self).key_buf@ == key_image(key, old(self).key_buf@.len()),
            r.is_get() == draws_get(roll, old(self).put_pct),
            r.tenant_of() == tenant,
    {
        let k = key;
        let ghost len = self.key_buf@.len();
        self.key_buf.set(0, (k % 256) as u8);
        self.key_buf.set(1, ((k / 256) % 256) as u8);
        self.key_buf.set(2, ((k / 65536) % 256) as u8);
        self.key_buf.set(3, (k / 16777216) as u8);
        proof {
            let old_k = choose|k: u32| old(self).key_buf@ == key_image(k, len);
            assert(old(self).key_buf@ == key_image(old_k, len));
            assert(self.key_buf@ =~= key_image(k, len));
        }
        let t = tenant;
        if draws_get_exec(roll, self.put_pct) {
            Op::Get { tenant: t }
        } else {
            Op::Put { tenant: t }
        }
    }

    /// Makes one operation of the drawn tenant rank and key rank: draws the get/put
    /// choice, and writes the key index little-endian into the first four bytes of the key.
    pub fn abc(&mut self, tenant: u32, key: u32) -> (r: Op)
        requires
            old(self).wf(),
            old(self).in_range(tenant, key),
        ensures
            final(self).wf(),
            final(self).put_pct == old(self).put_pct,
            final(self).n_keys == old(self).n_keys,
            final(self).n_tenants == old(self).n_tenants,
            final(self).value_buf == old(self).value_buf,
            final(self).key_buf@ == key_image(key, old(self).key_buf@.len()),
            r.tenant_of() == tenant,
            allowed(r.is_get(), old(self).put_pct),
    {
        let roll = draw_u32(&mut self.rng);
        self.choose_op(roll, tenant, key)
    }
}

/// Whether a get (`is_get`) or a put may come of some draw under `put_pct`: none of the
/// other kind at 0 and at 100 percent.
pub open spec fn allowed(is_get: bool, put_pct: usize) -> bool {
    &&& put_pct == 0 ==> is_get
    &&& put_pct == 100 ==> !is_get
}

fn draws_get_exec(roll: u32, put_pct: usize) -> (r: bool)
    ensures
        r == draws_get(roll, put_pct),
{
    (roll % 100) as usize >= put_pct
}

pub proof fn lemma_key_image_zero(len: nat)
    requires
        len >= 4,
    ensures
        Seq::new(len, |i: int| 0u8) == key_image(0, len),
{
    assert(Seq::new(len, |i: int| 0u8) =~= key_image(0, len));
}

/// Keys of the `get()`s among `draws`, each a key index and whether `abc` made a get.
pub open spec fn gets_of(draws: Seq<(u32, bool)>) -> Multiset<u32>
    decreases draws.len(),
{
    if draws.len() == 0 {
        Multiset::empty()
    } else if draws.last().1 {
        gets_of(draws.drop_last()).insert(draws.last().0)
    } else {
        gets_of(draws.drop_last())
    }
}

/// Keys of the `put()`s among `draws`.
pub open spec fn puts_of(draws: Seq<(u32, bool)>) -> Multiset<u32>
    decreases draws.len(),
{
    if draws.len() == 0 {
        Multiset::empty()
    } else if !draws.last().1 {
        puts_of(draws.drop_last()).insert(draws.last().0)
    } else {
        puts_of(draws.drop_last())
    }
}

/// Over any run of `abc` results, recorded as the key index written and whether a get came
/// out, the per-key counts of gets and puts add up to the number of draws, and every key
/// counted is one of the generator's `[1, n_keys]`.
pub proof fn lemma_tally_total(g: Pushback, draws: Seq<(u32, bool)>)
    requires
        forall|i: int| 0 <= i < draws.len() ==> 1 <= (#[trigger] draws[i]).0 <= g.n_keys,
    ensures
        gets_of(draws).add(puts_of(draws)).len() == draws.len(),
        forall|k: u32|
            #[trigger] gets_of(draws).add(puts_of(draws)).count(k) > 0 ==> 1 <= k <= g.n_keys,
    decreases draws.len(),
{
    if draws.len() > 0 {
        let rest = draws.drop_last();
        assert forall|i: int| 0 <= i < rest.len() implies 1 <= (#[trigger] rest[i]).0 <= g.n_keys by {
            assert(rest[i] == draws[i]);
        }
        lemma_tally_total(g, rest);
        assert(draws.last() == draws[draws.len() - 1]);
        assert forall|k: u32|
            #[trigger] gets_of(draws).add(puts_of(draws)).count(k) > 0 implies 1 <= k <= g.n_keys by {
            if k != draws.last().0 {
                assert(gets_of(draws).add(puts_of(draws)).count(k) == gets_of(rest).add(
                    puts_of(rest),
                ).count(k));
            }
        }
    }
}

} // verus!
