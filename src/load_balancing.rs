//! Backend selection: round-robin, weighted round-robin, least-connections
//! and IP-hash, behind one selection interface.

use vstd::prelude::*;
use vstd::arithmetic::div_mod::{lemma_fundamental_div_mod, lemma_fundamental_div_mod_converse};

verus! {

/// 2^64: the modulus of a `u64` cursor that wraps.
pub open spec fn cursor_modulus() -> nat {
    0x1_0000_0000_0000_0000
}

/// The backend index that a round-robin cursor points at in a pool of `k`.
pub open spec fn rr_index(cursor: nat, k: nat) -> nat
    recommends
        k > 0,
{
    cursor % k
}

/// The hash of a text: `h = h * 31 + c` over its characters, modulo 2^64.
pub open spec fn text_hash(s: Seq<char>) -> nat
    decreases s.len(),
{
    if s.len() == 0 {
        0
    } else {
        (text_hash(s.drop_last()) * 31 + s.last() as nat) % cursor_modulus()
    }
}

/// Computes `text_hash` of a string.
pub fn hash_text(s: &str) -> (h: u64)
    ensures
        h as nat == text_hash(s@),
{
    let n = s.unicode_len();
    let mut h: u64 = 0;
    let mut i: usize = 0;
    while i < n
        invariant
            n == s@.len(),
            i <= n,
            h as nat == text_hash(s@.take(i as int)),
        decreases n - i,
    {
        let c = s.get_char(i);
        assert(s@.take(i as int + 1).drop_last() =~= s@.take(i as int));
        h = h.wrapping_mul(31).wrapping_add(c as u64);
        i = i + 1;
    }
    assert(s@.take(n as int) =~= s@);
    h
}

/// What a selection may look at besides the pool: the client's address and
/// the number of open connections of each backend, by position in the pool
/// (a backend past the end of `active_connections` has none).
pub struct LoadBalancingContext {
    pub client_ip: String,
    pub active_connections: Vec<usize>,
}

impl LoadBalancingContext {
    pub fn new(client_ip: String) -> (r: Self)
        ensures
            r.client_ip == client_ip,
            r.active_connections@.len() == 0,
    {
        LoadBalancingContext { client_ip, active_connections: Vec::new() }
    }

    /// Open connections of the backend at `i`, as the context records them.
    pub open spec fn connections(&self, i: int) -> nat {
        if 0 <= i < self.active_connections@.len() {
            self.active_connections@[i] as nat
        } else {
            0
        }
    }
}

/// A backend-selection algorithm.
pub trait LoadBalancingAlgorithm: Sized {
    /// The position in `backends` that the next call picks, given `ctx`.
    spec fn choice(&self, backends: Seq<String>, ctx: LoadBalancingContext) -> nat;

    /// The state after one selection from a non-empty pool.
    spec fn advanced(&self) -> Self;

    /// Picks a backend from `backends`; `None` exactly when the pool is empty.
    fn select_backend(&mut self, backends: &[String], ctx: &LoadBalancingContext) -> (r: Option<String>)
        ensures
            backends@.len() == 0 ==> r is None && *final(self) == *old(self),
            backends@.len() > 0 ==> old(self).choice(backends@, *ctx) < backends@.len()
                && r == Some(backends@[old(self).choice(backends@, *ctx) as int])
                && *final(self) == old(self).advanced(),
    ;
}

/// Round-robin: the cursor modulo the pool size, one step per call.
pub struct RoundRobin {
    current_index: u64,
}

impl RoundRobin {
    pub closed spec fn cursor(&self) -> nat {
        self.current_index as nat
    }

    pub fn new() -> (r: Self)
        ensures
            r.cursor() == 0,
    {
        RoundRobin { current_index: 0 }
    }
}

impl LoadBalancingAlgorithm for RoundRobin {
    closed spec fn choice(&self, backends: Seq<String>, ctx: LoadBalancingContext) -> nat {
        rr_index(self.cursor(), backends.len())
    }

    closed spec fn advanced(&self) -> Self {
        RoundRobin { current_index: ((self.current_index as nat + 1) % cursor_modulus()) as u64 }
    }

    fn select_backend(&mut self, backends: &[String], ctx: &LoadBalancingContext) -> (r: Option<String>) {
        if backends.len() == 0 {
            return None;
        }
        let index = (self.current_index % (backends.len() as u64)) as usize;
        self.current_index = self.current_index.wrapping_add(1);
        Some(backends[index].clone())
    }
}

impl RoundRobin {
    /// The cursor after a selection is one more than before, modulo 2^64.
    pub proof fn lemma_advance(&self)
        ensures
            self.advanced().cursor() == (self.cursor() + 1) % cursor_modulus(),
    {
    }

    /// Round-robin picks the backend at the cursor modulo the pool size.
    pub proof fn lemma_choice(&self, backends: Seq<String>, ctx: LoadBalancingContext)
        ensures
            self.choice(backends, ctx) == rr_index(self.cursor(), backends.len()),
    {
    }
}

/// The weight that `entries` gives to `addr`: the first entry for it, at
/// least 1; 1 where there is none.
pub open spec fn weight_of(entries: Seq<(String, u32)>, addr: String) -> nat
    decreases entries.len(),
{
    if entries.len() == 0 {
        1
    } else if entries[0].0@ == addr@ {
        if entries[0].1 == 0 { 1 } else { entries[0].1 as nat }
    } else {
        weight_of(entries.drop_first(), addr)
    }
}

pub proof fn lemma_weight_positive(entries: Seq<(String, u32)>, addr: String)
    ensures
        weight_of(entries, addr) >= 1,
    decreases entries.len(),
{
    if entries.len() > 0 {
        lemma_weight_positive(entries.drop_first(), addr);
    }
}

/// The weight of each backend of a pool, by position.
pub open spec fn pool_weights(entries: Seq<(String, u32)>, backends: Seq<String>) -> Seq<nat> {
    Seq::new(backends.len(), |i: int| weight_of(entries, backends[i]))
}

/// The sum of a sequence of weights.
pub open spec fn total_weight(ws: Seq<nat>) -> nat
    decreases ws.len(),
{
    if ws.len() == 0 {
        0
    } else {
        total_weight(ws.drop_last()) + ws.last()
    }
}

/// The pool expanded by weight: position `i` repeated `ws[i]` times, in order.
pub open spec fn expand(ws: Seq<nat>) -> Seq<nat>
    decreases ws.len(),
{
    if ws.len() == 0 {
        Seq::empty()
    } else {
        expand(ws.drop_last()) + Seq::new(ws.last(), |j: int| (ws.len() - 1) as nat)
    }
}

/// How many times `x` occurs in `s`.
pub open spec fn occurrences(s: Seq<nat>, x: nat) -> nat
    decreases s.len(),
{
    if s.len() == 0 {
        0
    } else {
        occurrences(s.drop_last(), x) + if s.last() == x { 1nat } else { 0nat }
    }
}

pub proof fn lemma_expand_len(ws: Seq<nat>)
    ensures
        expand(ws).len() == total_weight(ws),
    decreases ws.len(),
{
    if ws.len() > 0 {
        lemma_expand_len(ws.drop_last());
    }
}

/// Position `t` of the expanded pool holds the backend whose cumulative
/// weight range holds `t`.
pub proof fn lemma_expand_index(ws: Seq<nat>, i: int, t: int)
    requires
        0 <= i < ws.len(),
        total_weight(ws.take(i)) <= t < total_weight(ws.take(i + 1)),
    ensures
        expand(ws)[t] == i,
    decreases ws.len(),
{
    let n = ws.len() as int;
    let init = ws.drop_last();
    lemma_expand_len(init);
    assert(ws.take(n) =~= ws);
    assert(ws.take(i + 1).drop_last() =~= ws.take(i));
    if i == n - 1 {
        assert(ws.take(n - 1) =~= init);
    } else {
        lemma_total_prefix_le(ws, i + 1, n - 1);
        assert(ws.take(n - 1) =~= init);
        assert(init.take(i) =~= ws.take(i));
        assert(init.take(i + 1) =~= ws.take(i + 1));
        lemma_expand_index(init, i, t);
    }
}

pub proof fn lemma_total_prefix_le(ws: Seq<nat>, a: int, b: int)
    requires
        0 <= a <= b <= ws.len(),
    ensures
        total_weight(ws.take(a)) <= total_weight(ws.take(b)),
    decreases b - a,
{
    if a < b {
        assert(ws.take(b).drop_last() =~= ws.take(b - 1));
        lemma_total_prefix_le(ws, a, b - 1);
    }
}

pub proof fn lemma_occurrences_concat(a: Seq<nat>, b: Seq<nat>, x: nat)
    ensures
        occurrences(a + b, x) == occurrences(a, x) + occurrences(b, x),
    decreases b.len(),
{
    if b.len() == 0 {
        assert(a + b =~= a);
    } else {
        assert((a + b).drop_last() =~= a + b.drop_last());
        lemma_occurrences_concat(a, b.drop_last(), x);
    }
}

pub proof fn lemma_occurrences_repeat(n: nat, v: nat, x: nat)
    ensures
        occurrences(Seq::new(n, |j: int| v), x) == if v == x { n } else { 0 },
    decreases n,
{
    if n > 0 {
        assert(Seq::new(n, |j: int| v).drop_last() =~= Seq::new((n - 1) as nat, |j: int| v));
        lemma_occurrences_repeat((n - 1) as nat, v, x);
    }
}

/// Backend `i` occurs in the expanded pool exactly its weight's times.
pub proof fn lemma_expand_occurrences(ws: Seq<nat>, i: nat)
    requires
        i < ws.len(),
    ensures
        occurrences(expand(ws), i) == ws[i as int],
    decreases ws.len(),
{
    let n = ws.len();
    let init = ws.drop_last();
    lemma_occurrences_concat(expand(init), Seq::new(ws.last(), |j: int| (n - 1) as nat), i);
    lemma_occurrences_repeat(ws.last(), (n - 1) as nat, i);
    if i < n - 1 {
        lemma_expand_occurrences(init, i);
    } else {
        lemma_expand_no_occurrence(init, i);
    }
}

pub proof fn lemma_expand_no_occurrence(ws: Seq<nat>, i: nat)
    requires
        i >= ws.len(),
    ensures
        occurrences(expand(ws), i) == 0,
    decreases ws.len(),
{
    if ws.len() > 0 {
        let n = ws.len();
        lemma_occurrences_concat(expand(ws.drop_last()), Seq::new(ws.last(), |j: int| (n - 1) as nat), i);
        lemma_occurrences_repeat(ws.last(), (n - 1) as nat, i);
        lemma_expand_no_occurrence(ws.drop_last(), i);
    }
}

/// The sum of some weights.
pub fn weights_total(ws: &Vec<u32>) -> (r: u128)
    ensures
        r as nat == total_weight(ws@.map_values(|w: u32| w as nat)),
{
    let ghost wn = ws@.map_values(|w: u32| w as nat);
    let mut total: u128 = 0;
    let mut i: usize = 0;
    let n = ws.len();
    assert(n as nat <= 0xFFFF_FFFF_FFFF_FFFF);
    while i < ws.len()
        invariant
            wn == ws@.map_values(|w: u32| w as nat),
            i <= ws@.len(),
            total as nat == total_weight(wn.take(i as int)),
            total as nat <= i as nat * 0xFFFF_FFFF,
            ws@.len() <= 0xFFFF_FFFF_FFFF_FFFF,
        decreases ws@.len() - i,
    {
        assert(wn.take(i as int + 1).drop_last() =~= wn.take(i as int));
        let w = ws[i];
        proof {
            assert(total as nat + w as nat <= (i as nat + 1) * 0xFFFF_FFFF) by (nonlinear_arith)
                requires
                    total as nat <= i as nat * 0xFFFF_FFFF,
                    w as nat <= 0xFFFF_FFFF,
            ;
        }
        total = total + w as u128;
        i = i + 1;
    }
    assert(wn.take(ws@.len() as int) =~= wn);
    total
}

/// Weighted round-robin: the cursor indexes the pool expanded by weight.
pub struct WeightedRoundRobin {
    current_index: u64,
    weights: Vec<(String, u32)>,
}

impl WeightedRoundRobin {
    pub closed spec fn cursor(&self) -> nat {
        self.current_index as nat
    }

    pub closed spec fn weight_entries(&self) -> Seq<(String, u32)> {
        self.weights@
    }

    /// Weights by backend address; an address without an entry weighs 1,
    /// and a weight of 0 counts as 1.
    pub fn new(weights: Vec<(String, u32)>) -> (r: Self)
        ensures
            r.cursor() == 0,
            r.weight_entries() == weights@,
    {
        WeightedRoundRobin { current_index: 0, weights }
    }

    fn weight_for(&self, addr: &String) -> (w: u32)
        ensures
            w as nat == weight_of(self.weights@, *addr),
    {
        let mut i: usize = 0;
        assert(self.weights@.skip(0) =~= self.weights@);
        while i < self.weights.len()
            invariant
                i <= self.weights@.len(),
                weight_of(self.weights@, *addr) == weight_of(self.weights@.skip(i as int), *addr),
            decreases self.weights@.len() - i,
        {
            assert(self.weights@.skip(i as int).drop_first() =~= self.weights@.skip(i as int + 1));
            assert(self.weights@.skip(i as int)[0] == self.weights@[i as int]);
            if self.weights[i].0 == *addr {
                let w = self.weights[i].1;
                return if w == 0 { 1 } else { w };
            }
            i = i + 1;
        }
        1
    }
}

/// The position that the expanded pool holds at `t`.
pub fn weighted_position(ws: &Vec<u32>, t: u128) -> (i: usize)
    requires
        (t as nat) < total_weight(ws@.map_values(|w: u32| w as nat)),
    ensures
        i < ws@.len(),
        expand(ws@.map_values(|w: u32| w as nat))[t as int] == i,
{
    let ghost wn = ws@.map_values(|w: u32| w as nat);
    let mut acc: u128 = 0;
    let mut i: usize = 0;
    while i < ws.len()
        invariant
            wn == ws@.map_values(|w: u32| w as nat),
            i <= ws@.len(),
            acc as nat == total_weight(wn.take(i as int)),
            acc as nat <= t as nat,
            (t as nat) < total_weight(wn),
            acc as nat <= i as nat * 0xFFFF_FFFF,
            i as nat <= 0xFFFF_FFFF_FFFF_FFFF,
        decreases ws@.len() - i,
    {
        assert(wn.take(i as int + 1).drop_last() =~= wn.take(i as int));
        let w = ws[i];
        proof {
            assert(acc as nat + w as nat <= (i as nat + 1) * 0xFFFF_FFFF) by (nonlinear_arith)
                requires
                    acc as nat <= i as nat * 0xFFFF_FFFF,
                    w as nat <= 0xFFFF_FFFF,
            ;
        }
        if t < acc + w as u128 {
            proof {
                lemma_expand_index(wn, i as int, t as int);
            }
            return i;
        }
        acc = acc + w as u128;
        i = i + 1;
    }
    assert(wn.take(ws@.len() as int) =~= wn);
    0
}

impl LoadBalancingAlgorithm for WeightedRoundRobin {
    closed spec fn choice(&self, backends: Seq<String>, ctx: LoadBalancingContext) -> nat {
        let ws = pool_weights(self.weights@, backends);
        expand(ws)[(self.current_index as nat % total_weight(ws)) as int]
    }

    closed spec fn advanced(&self) -> Self {
        WeightedRoundRobin {
            current_index: ((self.current_index as nat + 1) % cursor_modulus()) as u64,
            weights: self.weights,
        }
    }

    fn select_backend(&mut self, backends: &[String], ctx: &LoadBalancingContext) -> (r: Option<String>) {
        if backends.len() == 0 {
            return None;
        }
        let ghost ws = pool_weights(self.weights@, backends@);
        let mut weights: Vec<u32> = Vec::new();
        let mut total: u128 = 0;
        let mut i: usize = 0;
        while i < backends.len()
            invariant
                ws == pool_weights(self.weights@, backends@),
                i <= backends@.len(),
                weights@.len() == i,
                weights@.map_values(|w: u32| w as nat) =~= ws.take(i as int),
                total as nat == total_weight(ws.take(i as int)),
                total as nat <= i as nat * 0xFFFF_FFFF,
                backends@.len() <= 0xFFFF_FFFF_FFFF_FFFF,
                forall|j: int| 0 <= j < i ==> weights@[j] >= 1,
            decreases backends@.len() - i,
        {
            let w = self.weight_for(&backends[i]);
            proof {
                lemma_weight_positive(self.weights@, backends@[i as int]);
            }
            assert(ws.take(i as int + 1).drop_last() =~= ws.take(i as int));
            proof {
                assert(total as nat + w as nat <= (i as nat + 1) * 0xFFFF_FFFF) by (nonlinear_arith)
                    requires
                        total as nat <= i as nat * 0xFFFF_FFFF,
                        w as nat <= 0xFFFF_FFFF,
                ;
            }
            weights.push(w);
            total = total + w as u128;
            i = i + 1;
        }
        assert(ws.take(backends@.len() as int) =~= ws);
        proof {
            let wn = weights@.map_values(|w: u32| w as nat);
            assert(wn.take(1).drop_last() =~= wn.take(0));
            lemma_total_prefix_le(wn, 1, wn.len() as int);
        }
        let t = (self.current_index as u128) % total;
        let index = weighted_position(&weights, t);
        self.current_index = self.current_index.wrapping_add(1);
        Some(backends[index].clone())
    }
}

impl WeightedRoundRobin {
    /// Weighted round-robin picks the expanded pool's entry at the cursor
    /// modulo the total weight.
    pub proof fn lemma_choice(&self, backends: Seq<String>, ctx: LoadBalancingContext)
        ensures
            self.choice(backends, ctx) == expand(pool_weights(self.weight_entries(), backends))[
                (self.cursor() % total_weight(pool_weights(self.weight_entries(), backends))) as int],
    {
    }

    /// A selection moves the cursor by one and keeps the weights.
    pub proof fn lemma_advance(&self)
        ensures
            self.advanced().cursor() == (self.cursor() + 1) % cursor_modulus(),
            self.advanced().weight_entries() == self.weight_entries(),
    {
    }
}

/// The first position of a least value among `counts`.
pub open spec fn least_loaded(counts: Seq<nat>) -> nat
    decreases counts.len(),
{
    if counts.len() <= 1 {
        0
    } else {
        let m = least_loaded(counts.drop_last());
        if counts.last() < counts[m as int] { (counts.len() - 1) as nat } else { m }
    }
}

pub proof fn lemma_least_loaded_bound(counts: Seq<nat>)
    ensures
        counts.len() > 0 ==> least_loaded(counts) < counts.len(),
        counts.len() > 0 ==> forall|j: int| 0 <= j < counts.len() ==> counts[least_loaded(counts) as int] <= #[trigger] counts[j],
    decreases counts.len(),
{
    if counts.len() > 1 {
        let init = counts.drop_last();
        lemma_least_loaded_bound(init);
        assert forall|j: int| 0 <= j < counts.len() implies counts[least_loaded(counts) as int] <= #[trigger] counts[j] by {
            if j < counts.len() - 1 {
                assert(init[j] == counts[j]);
            }
        }
    }
}

/// The open connections of each backend of a pool of `n`, by position.
pub open spec fn pool_connections(ctx: LoadBalancingContext, n: nat) -> Seq<nat> {
    Seq::new(n, |i: int| ctx.connections(i))
}

/// Least-connections: the backend with the fewest open connections, the
/// first of them on a tie.
pub struct LeastConnections;

impl LeastConnections {
    pub fn new() -> (r: Self) {
        LeastConnections
    }
}

impl LoadBalancingAlgorithm for LeastConnections {
    open spec fn choice(&self, backends: Seq<String>, ctx: LoadBalancingContext) -> nat {
        least_loaded(pool_connections(ctx, backends.len()))
    }

    open spec fn advanced(&self) -> Self {
        *self
    }

    fn select_backend(&mut self, backends: &[String], ctx: &LoadBalancingContext) -> (r: Option<String>) {
        if backends.len() == 0 {
            return None;
        }
        let ghost counts = pool_connections(*ctx, backends@.len() as nat);
        let mut best: usize = 0;
        let mut best_count: usize = if ctx.active_connections.len() > 0 { ctx.active_connections[0] } else { 0 };
        let mut i: usize = 1;
        assert(counts.take(1).len() == 1);
        while i < backends.len()
            invariant
                counts == pool_connections(*ctx, backends@.len() as nat),
                1 <= i <= backends@.len(),
                best < i,
                best as nat == least_loaded(counts.take(i as int)),
                best_count as nat == counts[best as int],
            decreases backends@.len() - i,
        {
            assert(counts.take(i as int + 1).drop_last() =~= counts.take(i as int));
            let c: usize = if i < ctx.active_connections.len() { ctx.active_connections[i] } else { 0 };
            if c < best_count {
                best = i;
                best_count = c;
            }
            i = i + 1;
        }
        assert(counts.take(backends@.len() as int) =~= counts);
        proof {
            lemma_least_loaded_bound(counts);
        }
        Some(backends[best].clone())
    }
}

/// IP-hash: the hash of the client's address modulo the pool size, so that
/// one client keeps one backend while the pool stays the same.
pub struct IpHash;

impl IpHash {
    pub fn new() -> (r: Self) {
        IpHash
    }
}

impl LoadBalancingAlgorithm for IpHash {
    open spec fn choice(&self, backends: Seq<String>, ctx: LoadBalancingContext) -> nat {
        text_hash(ctx.client_ip@) % backends.len()
    }

    open spec fn advanced(&self) -> Self {
        *self
    }

    fn select_backend(&mut self, backends: &[String], ctx: &LoadBalancingContext) -> (r: Option<String>) {
        if backends.len() == 0 {
            return None;
        }
        let h = hash_text(ctx.client_ip.as_str());
        let index = (h % (backends.len() as u64)) as usize;
        Some(backends[index].clone())
    }
}

/// The selection algorithms, as one closed set.
pub enum Algorithm {
    RoundRobin(RoundRobin),
    WeightedRoundRobin(WeightedRoundRobin),
    LeastConnections(LeastConnections),
    IpHash(IpHash),
}

impl LoadBalancingAlgorithm for Algorithm {
    open spec fn choice(&self, backends: Seq<String>, ctx: LoadBalancingContext) -> nat {
        match self {
            Algorithm::RoundRobin(a) => a.choice(backends, ctx),
            Algorithm::WeightedRoundRobin(a) => a.choice(backends, ctx),
            Algorithm::LeastConnections(a) => a.choice(backends, ctx),
            Algorithm::IpHash(a) => a.choice(backends, ctx),
        }
    }

    open spec fn advanced(&self) -> Self {
        match self {
            Algorithm::RoundRobin(a) => Algorithm::RoundRobin(a.advanced()),
            Algorithm::WeightedRoundRobin(a) => Algorithm::WeightedRoundRobin(a.advanced()),
            Algorithm::LeastConnections(a) => Algorithm::LeastConnections(a.advanced()),
            Algorithm::IpHash(a) => Algorithm::IpHash(a.advanced()),
        }
    }

    fn select_backend(&mut self, backends: &[String], ctx: &LoadBalancingContext) -> (r: Option<String>) {
        match self {
            Algorithm::RoundRobin(a) => a.select_backend(backends, ctx),
            Algorithm::WeightedRoundRobin(a) => a.select_backend(backends, ctx),
            Algorithm::LeastConnections(a) => a.select_backend(backends, ctx),
            Algorithm::IpHash(a) => a.select_backend(backends, ctx),
        }
    }
}

/// A backend pool with its selection algorithm.
pub struct LoadBalancer {
    algorithm: Algorithm,
    backends: Vec<String>,
}

impl LoadBalancer {
    pub closed spec fn pool(&self) -> Seq<String> {
        self.backends@
    }

    pub closed spec fn algo(&self) -> Algorithm {
        self.algorithm
    }

    /// An empty pool with round-robin selection.
    pub fn new() -> (r: Self)
        ensures
            r.pool().len() == 0,
            r.algo() matches Algorithm::RoundRobin(a) && a.cursor() == 0,
    {
        LoadBalancer { algorithm: Algorithm::RoundRobin(RoundRobin::new()), backends: Vec::new() }
    }

    pub fn with_algorithm(self, algorithm: Algorithm) -> (r: Self)
        ensures
            r.pool() == self.pool(),
            r.algo() == algorithm,
    {
        LoadBalancer { algorithm, backends: self.backends }
    }

    pub fn add_backend(&mut self, backend: String)
        ensures
            final(self).pool() == old(self).pool().push(backend),
            final(self).algo() == old(self).algo(),
    {
        self.backends.push(backend);
    }

    /// The next backend by the algorithm; `None` exactly when the pool is empty.
    pub fn select_backend(&mut self, ctx: &LoadBalancingContext) -> (r: Option<String>)
        ensures
            final(self).pool() == old(self).pool(),
            old(self).pool().len() == 0 ==> r is None && final(self).algo() == old(self).algo(),
            old(self).pool().len() > 0 ==> old(self).algo().choice(old(self).pool(), *ctx) < old(self).pool().len()
                && r == Some(old(self).pool()[old(self).algo().choice(old(self).pool(), *ctx) as int])
                && final(self).algo() == old(self).algo().advanced(),
    {
        self.algorithm.select_backend(self.backends.as_slice(), ctx)
    }

    /// Drops every backend with the address `backend`, keeping the others in order.
    pub fn remove_backend(&mut self, backend: &str)
        ensures
            final(self).pool() == old(self).pool().filter(|b: String| b@ != backend@),
            final(self).algo() == old(self).algo(),
    {
        let ghost pred = |b: String| b@ != backend@;
        let mut kept: Vec<String> = Vec::new();
        let mut i: usize = 0;
        while i < self.backends.len()
            invariant
                i <= self.backends@.len(),
                pred == (|b: String| b@ != backend@),
                kept@ == self.backends@.take(i as int).filter(pred),
            decreases self.backends@.len() - i,
        {
            proof {
                reveal(Seq::filter);
                assert(self.backends@.take(i as int + 1).drop_last() =~= self.backends@.take(i as int));
            }
            let b = &self.backends[i];
            let same = string_eq_str(b, backend);
            if !same {
                kept.push(b.clone());
            }
            i = i + 1;
        }
        assert(self.backends@.take(self.backends@.len() as int) =~= self.backends@);
        self.backends = kept;
    }

    pub fn get_backends(&self) -> (r: &[String])
        ensures
            r@ == self.pool(),
    {
        self.backends.as_slice()
    }
}

/// Whether a string and a string slice hold the same characters.
pub fn string_eq_str(a: &String, b: &str) -> (r: bool)
    ensures
        r == (a@ == b@),
{
    let s = a.as_str();
    let n = s.unicode_len();
    if n != b.unicode_len() {
        return false;
    }
    let mut i: usize = 0;
    while i < n
        invariant
            n == s@.len() == b@.len(),
            s@ == a@,
            i <= n,
            forall|j: int| 0 <= j < i ==> s@[j] == b@[j],
        decreases n - i,
    {
        if s.get_char(i) != b.get_char(i) {
            return false;
        }
        i = i + 1;
    }
    assert(s@ =~= b@);
    true
}

/// Whether two string slices hold the same characters.
pub fn str_eq(a: &str, b: &str) -> (r: bool)
    ensures
        r == (a@ == b@),
{
    let n = a.unicode_len();
    if n != b.unicode_len() {
        return false;
    }
    let mut i: usize = 0;
    while i < n
        invariant
            n == a@.len() == b@.len(),
            i <= n,
            forall|j: int| 0 <= j < i ==> a@[j] == b@[j],
        decreases n - i,
    {
        if a.get_char(i) != b.get_char(i) {
            return false;
        }
        i = i + 1;
    }
    assert(a@ =~= b@);
    true
}

/// The positions that `n` round-robin selections pick from a pool of `k`,
/// the cursor starting at `start`.
pub open spec fn rr_picks(start: nat, n: nat, k: nat) -> Seq<nat> {
    Seq::new(n, |j: int| rr_index(start + j as nat, k))
}

/// How many of the numbers below `x` leave the remainder `i` modulo `k`.
spec fn below_with_rem(x: nat, k: nat, i: nat) -> int {
    (x + k - 1 - i) / (k as int)
}

proof fn lemma_below_with_rem_step(x: nat, k: nat, i: nat)
    requires
        k > 0,
        i < k,
    ensures
        below_with_rem(x + 1, k, i) == below_with_rem(x, k, i) + if x % k == i { 1int } else { 0int },
{
    let ki = k as int;
    lemma_fundamental_div_mod(x as int, ki);
    let q = x as int / ki;
    let r = x as int % ki;
    assert(x as int == q * ki + r) by (nonlinear_arith)
        requires
            x as int == ki * q + r,
    ;
    assert((q + 1) * ki == q * ki + ki) by (nonlinear_arith);
    if r + ki - 1 - i >= ki {
        lemma_fundamental_div_mod_converse(x + ki - 1 - i, ki, q + 1, r - 1 - i);
    } else {
        lemma_fundamental_div_mod_converse(x + ki - 1 - i, ki, q, r + ki - 1 - i);
    }
    if r + 1 < ki {
        if r + ki - i >= ki {
            lemma_fundamental_div_mod_converse(x + ki - i, ki, q + 1, r - i);
        } else {
            lemma_fundamental_div_mod_converse(x + ki - i, ki, q, r + ki - i);
        }
    } else {
        if i == ki - 1 {
            lemma_fundamental_div_mod_converse(x + ki - i, ki, q + 1, 0);
        } else {
            lemma_fundamental_div_mod_converse(x + ki - i, ki, q + 1, ki - 1 - i);
        }
    }
}

proof fn lemma_rr_count(start: nat, n: nat, k: nat, i: nat)
    requires
        k > 0,
        i < k,
    ensures
        occurrences(rr_picks(start, n, k), i) == below_with_rem(start + n, k, i) - below_with_rem(start, k, i),
    decreases n,
{
    if n > 0 {
        assert(rr_picks(start, n, k).drop_last() =~= rr_picks(start, (n - 1) as nat, k));
        lemma_rr_count(start, (n - 1) as nat, k, i);
        lemma_below_with_rem_step((start + n - 1) as nat, k, i);
    }
}

proof fn lemma_div_split(a: int, n: int, k: int)
    requires
        k > 0,
        a >= 0,
        n >= 0,
    ensures
        (a + n) / k - a / k == n / k || (a + n) / k - a / k == n / k + 1,
        n % k == 0 ==> (a + n) / k - a / k == n / k,
{
    lemma_fundamental_div_mod(a, k);
    lemma_fundamental_div_mod(n, k);
    let qa = a / k;
    let ra = a % k;
    let qn = n / k;
    let rn = n % k;
    assert(a + n == (qa + qn) * k + (ra + rn)) by (nonlinear_arith)
        requires
            a == k * qa + ra,
            n == k * qn + rn,
    ;
    assert((qa + qn + 1) * k == (qa + qn) * k + k) by (nonlinear_arith);
    if ra + rn < k {
        lemma_fundamental_div_mod_converse(a + n, k, qa + qn, ra + rn);
    } else {
        lemma_fundamental_div_mod_converse(a + n, k, qa + qn + 1, ra + rn - k);
    }
}

/// Round-robin fairness: `n` selections from a pool of `k`, the cursor
/// starting at `start` and not wrapping on the way, pick position `j` of the
/// run at `(start + j) mod k`, and pick each backend ⌊n/k⌋ or ⌈n/k⌉ times
/// (exactly n/k times when k divides n).
pub proof fn lemma_round_robin_fairness(start: nat, n: nat, k: nat, i: nat)
    requires
        k > 0,
        i < k,
        start + n <= cursor_modulus(),
    ensures
        forall|j: int| 0 <= j < n ==> rr_picks(start, n, k)[j] == rr_index(start + j as nat, k),
        occurrences(rr_picks(start, n, k), i) == n / k || occurrences(rr_picks(start, n, k), i) == n / k + 1,
        n % k == 0 ==> occurrences(rr_picks(start, n, k), i) == n / k,
        n % k != 0 ==> occurrences(rr_picks(start, n, k), i) <= n / k + 1,
{
    lemma_rr_count(start, n, k, i);
    lemma_div_split(start + k - 1 - i, n as int, k as int);
}

/// The positions that `n` weighted selections pick, the cursor starting at
/// `start`, over backends weighing `ws`.
pub open spec fn wrr_picks(ws: Seq<nat>, start: nat, n: nat) -> Seq<nat> {
    Seq::new(n, |j: int| expand(ws)[((start + j as nat) % total_weight(ws)) as int])
}

/// Weighted proportionality: over any run of W consecutive selections, W the
/// total weight, backend `i` is picked exactly its weight's times.
pub proof fn lemma_weighted_proportionality(ws: Seq<nat>, start: nat, i: nat)
    requires
        i < ws.len(),
        total_weight(ws) > 0,
    ensures
        occurrences(wrr_picks(ws, start, total_weight(ws)), i) == ws[i as int],
{
    let w = total_weight(ws) as int;
    let e = expand(ws);
    lemma_expand_len(ws);
    lemma_fundamental_div_mod(start as int, w);
    let q = start as int / w;
    let r = start as int % w;
    let picks = wrr_picks(ws, start, w as nat);
    let rotated = e.subrange(r, w) + e.subrange(0, r);
    assert forall|j: int| 0 <= j < w implies picks[j] == rotated[j] by {
        assert(start as int + j == q * w + (r + j)) by (nonlinear_arith)
            requires
                start as int == w * q + r,
        ;
        assert((q + 1) * w == q * w + w) by (nonlinear_arith);
        if r + j < w {
            lemma_fundamental_div_mod_converse(start as int + j, w, q, r + j);
        } else {
            lemma_fundamental_div_mod_converse(start as int + j, w, q + 1, r + j - w);
        }
    }
    assert(picks =~= rotated);
    assert(e =~= e.subrange(0, r) + e.subrange(r, w));
    lemma_occurrences_concat(e.subrange(r, w), e.subrange(0, r), i);
    lemma_occurrences_concat(e.subrange(0, r), e.subrange(r, w), i);
    lemma_expand_occurrences(ws, i);
}

/// The round-robin state after `n` selections from non-empty pools.
pub open spec fn rr_after(a: RoundRobin, n: nat) -> RoundRobin
    decreases n,
{
    if n == 0 { a } else { rr_after(a, (n - 1) as nat).advanced() }
}

/// A run of selections: the `j`-th of `n` selections from a pool of `k`
/// made by a round-robin whose cursor is `start` picks `rr_picks(start, n, k)[j]`,
/// so the counts of `lemma_round_robin_fairness` are the counts of the run
/// (the cursor not wrapping on the way).
pub proof fn lemma_round_robin_run(a: RoundRobin, backends: Seq<String>, ctx: LoadBalancingContext, n: nat, j: nat)
    requires
        backends.len() > 0,
        j < n,
        a.cursor() + n <= cursor_modulus(),
    ensures
        rr_after(a, j).cursor() == a.cursor() + j,
        rr_after(a, j).choice(backends, ctx) == rr_picks(a.cursor(), n, backends.len())[j as int],
    decreases j,
{
    if j > 0 {
        lemma_round_robin_run(a, backends, ctx, n, (j - 1) as nat);
        rr_after(a, (j - 1) as nat).lemma_advance();
    }
}

} // verus!
