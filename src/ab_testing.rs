//! A/B testing: experiments split traffic among variants by weight, keyed
//! by a hash of the client and the experiment's request count.

use vstd::prelude::*;
use vstd::utf8::encode_utf8;
use crate::load_balancing::{cursor_modulus, expand, total_weight, weighted_position, weights_total};
use crate::http::copy_text;

verus! {

pub struct Variant {
    pub name: String,
    pub weight: u32,
    pub backend: String,
}

pub struct Experiment {
    name: String,
    variants: Vec<Variant>,
    total_requests: u64,
}

pub struct VariantInfo {
    pub name: String,
    pub weight: u32,
    pub backend: String,
}

pub struct ExperimentStats {
    pub name: String,
    pub total_requests: u64,
    pub variants: Vec<VariantInfo>,
}

impl Experiment {
    pub closed spec fn label(&self) -> Seq<char> {
        self.name@
    }

    pub closed spec fn weights(&self) -> Seq<nat> {
        self.variants@.map_values(|v: Variant| v.weight as nat)
    }

    pub closed spec fn backends(&self) -> Seq<Seq<char>> {
        self.variants@.map_values(|v: Variant| v.backend@)
    }

    pub closed spec fn names(&self) -> Seq<Seq<char>> {
        self.variants@.map_values(|v: Variant| v.name@)
    }

    pub closed spec fn requests(&self) -> nat {
        self.total_requests as nat
    }

    pub fn new(name: String, variants: Vec<Variant>) -> (r: Self)
        ensures
            r.label() == name@,
            r.weights() == variants@.map_values(|v: Variant| v.weight as nat),
            r.backends() == variants@.map_values(|v: Variant| v.backend@),
            r.names() == variants@.map_values(|v: Variant| v.name@),
            r.requests() == 0,
    {
        Experiment { name, variants, total_requests: 0 }
    }

    fn weight_list(&self) -> (r: Vec<u32>)
        ensures
            r@.map_values(|w: u32| w as nat) == self.weights(),
            r@.len() == self.variants@.len(),
    {
        let mut r: Vec<u32> = Vec::new();
        let mut i: usize = 0;
        while i < self.variants.len()
            invariant
                i <= self.variants@.len(),
                r@.len() == i,
                forall|j: int| 0 <= j < i ==> #[trigger] r@[j] == self.variants@[j].weight,
            decreases self.variants@.len() - i,
        {
            r.push(self.variants[i].weight);
            i = i + 1;
        }
        assert(r@.map_values(|w: u32| w as nat) =~= self.weights());
        r
    }
}

/// The hash that picks a variant: the hash of the client's UTF-8 bytes plus
/// the request count, modulo 2^64.
pub open spec fn client_hash(client: Seq<char>, count: nat) -> nat {
    (bytes_hash(encode_utf8(client)) + count) % cursor_modulus()
}

/// The hash of some bytes: `h = h * 31 + b` over them, modulo 2^64.
pub open spec fn bytes_hash(b: Seq<u8>) -> nat
    decreases b.len(),
{
    if b.len() == 0 {
        0
    } else {
        (bytes_hash(b.drop_last()) * 31 + b.last() as nat) % cursor_modulus()
    }
}

/// Computes `bytes_hash` of the UTF-8 bytes of a text.
pub fn hash_bytes(s: &str) -> (h: u64)
    ensures
        h as nat == bytes_hash(encode_utf8(s@)),
{
    let b = s.as_bytes();
    let mut h: u64 = 0;
    let mut i: usize = 0;
    while i < b.len()
        invariant
            b@ == encode_utf8(s@),
            i <= b@.len(),
            h as nat == bytes_hash(b@.take(i as int)),
        decreases b@.len() - i,
    {
        assert(b@.take(i as int + 1).drop_last() =~= b@.take(i as int));
        h = h.wrapping_mul(31).wrapping_add(b[i] as u64);
        i = i + 1;
    }
    assert(b@.take(b@.len() as int) =~= b@);
    h
}

/// The experiment called `name` (the first one).
pub open spec fn experiment_in(exps: Seq<Experiment>, name: Seq<char>) -> Option<Experiment>
    decreases exps.len(),
{
    if exps.len() == 0 {
        None
    } else if exps[0].label() == name {
        Some(exps[0])
    } else {
        experiment_in(exps.drop_first(), name)
    }
}

/// Experiments by name.
pub struct ABTesting {
    experiments: Vec<Experiment>,
}

impl ABTesting {
    pub closed spec fn all(&self) -> Seq<Experiment> {
        self.experiments@
    }

    /// The experiment called `name`.
    pub open spec fn experiment(&self, name: Seq<char>) -> Option<Experiment> {
        experiment_in(self.all(), name)
    }

    pub fn new() -> (r: Self)
        ensures
            forall|n: Seq<char>| #[trigger] r.experiment(n) is None,
    {
        ABTesting { experiments: Vec::new() }
    }

    fn find(&self, name: &str) -> (r: Option<usize>)
        ensures
            match r {
                Some(i) => i < self.all().len() && self.experiment(name@) == Some(self.all()[i as int])
                    && self.all()[i as int].label() == name@
                    && forall|j: int| 0 <= j < i ==> (#[trigger] self.all()[j]).label() != name@,
                None => self.experiment(name@) is None,
            },
    {
        let ghost e = self.all();
        let mut i: usize = 0;
        assert(e.skip(0) =~= e);
        while i < self.experiments.len()
            invariant
                e == self.all(),
                i <= e.len(),
                experiment_in(e, name@) == experiment_in(e.skip(i as int), name@),
                forall|j: int| 0 <= j < i ==> (#[trigger] e[j]).label() != name@,
            decreases e.len() - i,
        {
            assert(e.skip(i as int).drop_first() =~= e.skip(i as int + 1));
            assert(e.skip(i as int)[0] == e[i as int]);
            if crate::load_balancing::string_eq_str(&self.experiments[i].name, name) {
                return Some(i);
            }
            i = i + 1;
        }
        assert(e.skip(i as int).len() == 0);
        None
    }

    /// Adds an experiment, in place of any of the same name.
    pub fn add_experiment(&mut self, name: String, variants: Vec<Variant>)
        ensures
            final(self).experiment(name@) matches Some(x) && x.label() == name@
                && x.weights() == variants@.map_values(|v: Variant| v.weight as nat)
                && x.backends() == variants@.map_values(|v: Variant| v.backend@)
                && x.names() == variants@.map_values(|v: Variant| v.name@) && x.requests() == 0,
            forall|n: Seq<char>| n != name@ ==> #[trigger] final(self).experiment(n) == old(self).experiment(n),
    {
        let ghost e0 = self.all();
        let found = self.find(name.as_str());
        let exp = Experiment::new(name, variants);
        let ghost x = exp;
        match found {
            Some(i) => {
                self.experiments.set(i, exp);
                proof {
                    assert(self.all() == e0.update(i as int, x));
                    lemma_experiment_update(e0, i as int, x);
                }
            },
            None => {
                self.experiments.push(exp);
                proof {
                    assert(self.all() == e0.push(x));
                    lemma_experiment_push(e0, x);
                }
            },
        }
    }
}

impl ABTesting {
    /// Counts a request of `client_identifier` in the experiment and picks a
    /// variant's backend: position `hash mod W` of the variants expanded by
    /// weight, where W is the total weight and the hash is `client_hash` of
    /// the client and the new request count. `None` for an unknown
    /// experiment or a total weight of 0.
    pub fn select_backend(&mut self, experiment_name: &str, client_identifier: &str) -> (r: Option<String>)
        ensures
            match old(self).experiment(experiment_name@) {
                None => r is None && final(self).all() == old(self).all(),
                Some(x) => {
                    let count = (x.requests() + 1) % cursor_modulus();
                    let w = total_weight(x.weights());
                    &&& final(self).experiment(experiment_name@) matches Some(y) && y.label() == x.label()
                        && y.weights() == x.weights() && y.backends() == x.backends() && y.names() == x.names()
                        && y.requests() == count
                    &&& forall|n: Seq<char>| n != experiment_name@ ==> #[trigger] final(self).experiment(n) == old(self).experiment(n)
                    &&& w == 0 ==> r is None
                    &&& w > 0 ==> (r matches Some(b) && b@ == x.backends()[
                        expand(x.weights())[(client_hash(client_identifier@, count) % w) as int] as int])
                },
            },
    {
        let ghost e0 = self.all();
        let i = match self.find(experiment_name) {
            Some(i) => i,
            None => {
                return None;
            },
        };
        let ghost x = e0[i as int];
        let mut exp = self.experiments.remove(i);
        exp.total_requests = exp.total_requests.wrapping_add(1);
        let count = exp.total_requests;
        let ghost y = exp;
        let weights = exp.weight_list();
        let total = weights_total(&weights);
        let result = if total == 0 {
            None
        } else {
            let hash = hash_bytes(client_identifier).wrapping_add(count);
            let t = (hash as u128) % total;
            let k = weighted_position(&weights, t);
            Some(copy_text(&exp.variants[k].backend))
        };
        self.experiments.insert(i, exp);
        proof {
            assert(self.all() =~= e0.update(i as int, y));
            lemma_experiment_update(e0, i as int, y);
        }
        result
    }

    /// The name, request count and variants of an experiment.
    pub fn get_experiment_stats(&self, experiment_name: &str) -> (r: Option<ExperimentStats>)
        ensures
            match self.experiment(experiment_name@) {
                None => r is None,
                Some(x) => r matches Some(st) && st.name@ == x.label() && st.total_requests == x.requests()
                    && st.variants@.map_values(|v: VariantInfo| v.name@) == x.names()
                    && st.variants@.map_values(|v: VariantInfo| v.weight as nat) == x.weights()
                    && st.variants@.map_values(|v: VariantInfo| v.backend@) == x.backends(),
            },
    {
        match self.find(experiment_name) {
            None => None,
            Some(i) => {
                let exp = &self.experiments[i];
                let mut infos: Vec<VariantInfo> = Vec::new();
                let mut j: usize = 0;
                while j < exp.variants.len()
                    invariant
                        j <= exp.variants@.len(),
                        infos@.len() == j,
                        forall|k: int| 0 <= k < j ==> (#[trigger] infos@[k]).name@ == exp.variants@[k].name@
                            && infos@[k].weight == exp.variants@[k].weight && infos@[k].backend@ == exp.variants@[k].backend@,
                    decreases exp.variants@.len() - j,
                {
                    let v = &exp.variants[j];
                    infos.push(VariantInfo { name: copy_text(&v.name), weight: v.weight, backend: copy_text(&v.backend) });
                    j = j + 1;
                }
                assert(infos@.map_values(|v: VariantInfo| v.name@) =~= exp.names());
                assert(infos@.map_values(|v: VariantInfo| v.weight as nat) =~= exp.weights());
                assert(infos@.map_values(|v: VariantInfo| v.backend@) =~= exp.backends());
                Some(ExperimentStats { name: copy_text(&exp.name), total_requests: exp.total_requests, variants: infos })
            },
        }
    }
}

proof fn lemma_experiment_update(e: Seq<Experiment>, i: int, x: Experiment)
    requires
        0 <= i < e.len(),
        e[i].label() == x.label(),
        forall|j: int| 0 <= j < i ==> (#[trigger] e[j]).label() != x.label(),
    ensures
        experiment_in(e.update(i, x), x.label()) == Some(x),
        forall|n: Seq<char>| n != x.label() ==> #[trigger] experiment_in(e.update(i, x), n) == experiment_in(e, n),
    decreases e.len(),
{
    let u = e.update(i, x);
    if i > 0 {
        assert(u.drop_first() =~= e.drop_first().update(i - 1, x));
        lemma_experiment_update(e.drop_first(), i - 1, x);
        assert(u[0] == e[0]);
        assert forall|n: Seq<char>| n != x.label() implies #[trigger] experiment_in(u, n) == experiment_in(e, n) by {
            assert(experiment_in(u.drop_first(), n) == experiment_in(e.drop_first(), n));
        }
    } else {
        assert(u.drop_first() =~= e.drop_first());
        assert forall|n: Seq<char>| n != x.label() implies #[trigger] experiment_in(u, n) == experiment_in(e, n) by {
            assert(u[0].label() != n);
        }
    }
}

proof fn lemma_experiment_push(e: Seq<Experiment>, x: Experiment)
    requires
        experiment_in(e, x.label()) is None,
    ensures
        experiment_in(e.push(x), x.label()) == Some(x),
        forall|n: Seq<char>| n != x.label() ==> #[trigger] experiment_in(e.push(x), n) == experiment_in(e, n),
    decreases e.len(),
{
    if e.len() > 0 {
        assert(e.push(x).drop_first() =~= e.drop_first().push(x));
        lemma_experiment_push(e.drop_first(), x);
        assert(e.push(x)[0] == e[0]);
        assert forall|n: Seq<char>| n != x.label() implies #[trigger] experiment_in(e.push(x), n) == experiment_in(e, n) by {
            assert(experiment_in(e.drop_first().push(x), n) == experiment_in(e.drop_first(), n));
        }
    } else {
        assert(e.push(x).drop_first() =~= e);
        assert forall|n: Seq<char>| n != x.label() implies #[trigger] experiment_in(e.push(x), n) == experiment_in(e, n) by {
            assert(e.push(x)[0] == x);
        }
    }
}

} // verus!
