//! The evolutionary loop: seeding, scoring, sorting, and the per-generation
//! step that combines crossover, elitism and mutation.

use vstd::prelude::*;

use crate::gene::alphanumeric_byte;
use crate::gene::ascii_seq;
use crate::gene::calc_score_result;
use crate::gene::lemma_ascii_seq_valid_utf8;
use crate::gene::score_of;
use crate::gene::score_spec;
use crate::gene::Gene;
use crate::rng::RandomSource;
use vstd::multiset::Multiset;

verus! {

/// Every gene holds a memoized score.
pub open spec fn all_scored(s: Seq<Gene>) -> bool {
    forall|i: int| 0 <= i < s.len() ==> (#[trigger] s[i]).score is Some
}

/// Every gene's memoized score is the fitness of its bytes against `goal`.
pub open spec fn scored_against(s: Seq<Gene>, goal: Seq<u8>) -> bool {
    forall|i: int|
        0 <= i < s.len() ==> (#[trigger] s[i]).score == Some(
            score_spec(s[i].data@, goal) as usize,
        )
}

/// Genes come in ascending score order: the best stands first.
pub open spec fn sorted_by_score(s: Seq<Gene>) -> bool {
    forall|i: int, j: int|
        #![trigger s[i], s[j]]
        0 <= i <= j < s.len() ==> score_of(s[i]) <= score_of(s[j])
}

/// Every gene's byte string has length `len`.
pub open spec fn uniform_len(s: Seq<Gene>, len: nat) -> bool {
    forall|i: int| 0 <= i < s.len() ==> (#[trigger] s[i]).data@.len() == len
}

/// In a population sorted ascending by score, the first gene's score is less
/// than or equal to every member's score.
pub proof fn lemma_best_stands_first(s: Seq<Gene>)
    requires
        sorted_by_score(s),
    ensures
        forall|i: int| 0 <= i < s.len() ==> score_of(s[0]) <= score_of(#[trigger] s[i]),
{
}

/// Seeds generation zero: exactly `n` unscored genes of length `len`, every
/// byte drawn uniformly from the ASCII letters and digits.
pub fn generate_random_genes(n: usize, len: usize, source: &mut RandomSource) -> (genes: Vec<Gene>)
    ensures
        genes@.len() == n,
        forall|i: int| 0 <= i < n ==> (#[trigger] genes@[i]).score is None,
        uniform_len(genes@, len as nat),
        forall|i: int, j: int|
            0 <= i < n && 0 <= j < len ==> alphanumeric_byte(#[trigger] genes@[i].data@[j]),
{
    let mut genes: Vec<Gene> = Vec::new();
    while genes.len() < n
        invariant
            genes@.len() <= n,
            forall|i: int| 0 <= i < genes@.len() ==> (#[trigger] genes@[i]).score is None,
            uniform_len(genes@, len as nat),
            forall|i: int, j: int|
                0 <= i < genes@.len() && 0 <= j < len ==> alphanumeric_byte(
                    #[trigger] genes@[i].data@[j],
                ),
        decreases n - genes@.len(),
    {
        let mut data: Vec<u8> = Vec::new();
        while data.len() < len
            invariant
                data@.len() <= len,
                forall|j: int| 0 <= j < data@.len() ==> alphanumeric_byte(#[trigger] data@[j]),
            decreases len - data@.len(),
        {
            let b: u8 = source.text_byte();
            data.push(b);
        }
        genes.push(Gene::new(data));
    }
    genes
}

/// Scores every gene in place against `goal`; genes already scored keep
/// their memoized score and are untouched.
pub fn score_all(genes: &mut Vec<Gene>, goal: &[u8])
    ensures
        final(genes)@.len() == old(genes)@.len(),
        forall|i: int|
            0 <= i < old(genes)@.len() ==> {
                &&& (#[trigger] final(genes)@[i]).data == old(genes)@[i].data
                &&& final(genes)@[i].score == calc_score_result(
                    old(genes)@[i].score,
                    old(genes)@[i].data@,
                    goal@,
                )
                &&& (old(genes)@[i].score is Some ==> final(genes)@[i] == old(genes)@[i])
            },
{
    let mut i: usize = 0;
    while i < genes.len()
        invariant
            genes@.len() == old(genes)@.len(),
            i <= genes@.len(),
            forall|k: int| i <= k < genes@.len() ==> genes@[k] == old(genes)@[k],
            forall|k: int|
                0 <= k < i ==> {
                    &&& (#[trigger] genes@[k]).data == old(genes)@[k].data
                    &&& genes@[k].score == calc_score_result(
                        old(genes)@[k].score,
                        old(genes)@[k].data@,
                        goal@,
                    )
                    &&& (old(genes)@[k].score is Some ==> genes@[k] == old(genes)@[k])
                },
        decreases genes@.len() - i,
    {
        let ghost pre = genes@;
        let mut g: Gene = genes.remove(i);
        g.calc_score(goal);
        genes.insert(i, g);
        proof {
            assert(genes@ =~= pre.update(i as int, g));
        }
        i = i + 1;
    }
}

/// Taking one occurrence of a present value out of a multiset and putting it
/// back changes nothing.
proof fn lemma_multiset_remove_insert(m: Multiset<Gene>, x: Gene)
    requires
        m.count(x) > 0,
    ensures
        m.remove(x).insert(x) == m,
{
    broadcast use vstd::multiset::group_multiset_axioms;

    assert(m.remove(x).insert(x) =~= m);
}

/// Reorders the genes ascending by memoized score, keeping exactly the same
/// genes (the result is a permutation of the input).
pub fn sort_by_score(genes: &mut Vec<Gene>)
    requires
        all_scored(old(genes)@),
    ensures
        final(genes)@.len() == old(genes)@.len(),
        all_scored(final(genes)@),
        sorted_by_score(final(genes)@),
        final(genes)@.to_multiset() == old(genes)@.to_multiset(),
{
    broadcast use vstd::seq_lib::group_to_multiset_ensures;

    let n: usize = genes.len();
    let mut i: usize = 0;
    while i < n
        invariant
            n == genes@.len(),
            genes@.len() == old(genes)@.len(),
            i <= n,
            all_scored(genes@),
            genes@.to_multiset() == old(genes)@.to_multiset(),
            forall|a: int, b: int|
                #![trigger genes@[a], genes@[b]]
                0 <= a <= b < i ==> score_of(genes@[a]) <= score_of(genes@[b]),
            forall|a: int, b: int|
                #![trigger genes@[a], genes@[b]]
                0 <= a < i <= b < n ==> score_of(genes@[a]) <= score_of(genes@[b]),
        decreases n - i,
    {
        let mut m: usize = i;
        let mut k: usize = i + 1;
        while k < n
            invariant
                n == genes@.len(),
                all_scored(genes@),
                i <= m < k <= n,
                forall|t: int| i <= t < k ==> score_of(genes@[m as int]) <= score_of(
                    #[trigger] genes@[t],
                ),
            decreases n - k,
        {
            if genes[k].score() < genes[m].score() {
                m = k;
            }
            k = k + 1;
        }
        let ghost pre = genes@;
        let g: Gene = genes.remove(m);
        genes.insert(i, g);
        proof {
            broadcast use vstd::seq_lib::group_to_multiset_ensures;

            assert(pre.contains(pre[m as int])) by {
                assert(pre[m as int] == pre[m as int]);
            }
            assert(pre.to_multiset().count(pre[m as int]) > 0);
            lemma_multiset_remove_insert(pre.to_multiset(), pre[m as int]);
            assert(genes@.to_multiset() == pre.to_multiset());
            // where each element now stands
            assert forall|t: int| 0 <= t < i implies genes@[t] == pre[t] by {}
            assert(genes@[i as int] == pre[m as int]);
            assert forall|t: int| i < t <= m implies genes@[t] == pre[t - 1] by {}
            assert forall|t: int| m < t < n implies genes@[t] == pre[t] by {}
        }
        i = i + 1;
    }
}

/// In a permutation, every element of one side also stands somewhere on the
/// other side.
proof fn lemma_permutation_element_source(a: Seq<Gene>, b: Seq<Gene>, j: int)
    requires
        a.to_multiset() == b.to_multiset(),
        0 <= j < b.len(),
    ensures
        exists|i: int| 0 <= i < a.len() && a[i] == b[j],
{
    broadcast use vstd::seq_lib::group_to_multiset_ensures;

    assert(b.contains(b[j]));
    assert(a.to_multiset().count(b[j]) > 0);
    assert(a.contains(b[j]));
}

/// One full generation step. The candidate buffer is filled with crossover
/// children of uniformly sampled parent pairs, then with the elite prefix of
/// the current population moved over unchanged; a random number of uniformly
/// indexed candidates (bounded by `mutation_cap`) is mutated; the buffer is
/// scored, sorted ascending, and becomes the new population, which therefore
/// keeps its size. With `mutation_cap <= 1` no mutation can be drawn, so each
/// elite survives byte-identical; an all-elite step with no mutation merely
/// reorders the population.
pub fn next_generation(
    population: &mut Vec<Gene>,
    goal: &[u8],
    elite_count: usize,
    mutation_cap: usize,
    source: &mut RandomSource,
)
    requires
        old(population)@.len() > 0,
        elite_count <= old(population)@.len(),
        scored_against(old(population)@, goal@),
        sorted_by_score(old(population)@),
        mutation_cap > 1 ==> (forall|i: int|
            0 <= i < old(population)@.len() ==> (#[trigger] old(population)@[i]).data@.len() > 0),
    ensures
        final(population)@.len() == old(population)@.len(),
        scored_against(final(population)@, goal@),
        sorted_by_score(final(population)@),
        uniform_len(old(population)@, goal@.len()) ==> uniform_len(
            final(population)@,
            goal@.len(),
        ),
        mutation_cap <= 1 ==> (forall|i: int|
            0 <= i < elite_count ==> final(population)@.contains(#[trigger] old(population)@[i])),
        (elite_count == old(population)@.len() && mutation_cap == 0)
            ==> final(population)@.to_multiset() == old(population)@.to_multiset(),
{
    let n: usize = population.len();
    let crossover_count: usize = n - elite_count;
    let mut children: Vec<Gene> = Vec::new();

    // Crossover: parents are sampled uniformly over the whole current
    // population, with replacement.
    let mut c: usize = 0;
    while c < crossover_count
        invariant
            n == population@.len(),
            population@ == old(population)@,
            crossover_count <= n,
            n > 0,
            c <= crossover_count,
            children@.len() == c,
            forall|t: int| 0 <= t < c ==> (#[trigger] children@[t]).score is None,
            uniform_len(old(population)@, goal@.len()) ==> uniform_len(children@, goal@.len()),
            mutation_cap > 1 ==> (forall|t: int|
                0 <= t < c ==> (#[trigger] children@[t]).data@.len() > 0),
            mutation_cap > 1 ==> (forall|i: int|
                0 <= i < n ==> (#[trigger] old(population)@[i]).data@.len() > 0),
        decreases crossover_count - c,
    {
        let ia: usize = source.index_below(n);
        let ib: usize = source.index_below(n);
        let child: Gene = population[ia].crossover(&population[ib], source);
        children.push(child);
        c = c + 1;
    }

    // Elitism: the front of the population is its best part, since it is
    // sorted; move it over verbatim.
    let ghost cross_children = children@;
    let mut e: usize = 0;
    while e < elite_count
        invariant
            e <= elite_count,
            elite_count <= n,
            n == old(population)@.len(),
            population@ == old(population)@.subrange(e as int, n as int),
            children@ == cross_children + old(population)@.subrange(0, e as int),
        decreases elite_count - e,
    {
        proof {
            assert(population@[0] == old(population)@[e as int]);
        }
        let g: Gene = population.remove(0);
        children.push(g);
        proof {
            assert(population@ =~= old(population)@.subrange(e + 1, n as int));
            assert(children@ =~= cross_children + old(population)@.subrange(0, e + 1));
        }
        e = e + 1;
    }
    let ghost staged = children@;

    // Mutation: the number of mutations itself is drawn at random, bounded
    // by the cap; each hits a uniformly indexed candidate.
    let m: usize = if mutation_cap == 0 {
        0
    } else {
        source.index_below(mutation_cap)
    };
    let mut t: usize = 0;
    while t < m
        invariant
            t <= m,
            m < mutation_cap || m == 0,
            children@.len() == n,
            n > 0,
            mutation_cap > 1 ==> (forall|u: int|
                0 <= u < n ==> (#[trigger] children@[u]).data@.len() > 0),
            m > 0 ==> mutation_cap > 1,
            m == 0 ==> children@ == staged,
            forall|u: int|
                0 <= u < n && (#[trigger] children@[u]).score is Some ==> children@[u]
                    == staged[u],
            uniform_len(staged, goal@.len()) ==> uniform_len(children@, goal@.len()),
        decreases m - t,
    {
        let idx: usize = source.index_below(children.len());
        let ghost pre = children@;
        let mut g: Gene = children.remove(idx);
        g.mutate(source);
        children.insert(idx, g);
        proof {
            assert(children@ =~= pre.update(idx as int, g));
        }
        t = t + 1;
    }

    // Every candidate gets its score against the goal, and the buffer is
    // sorted ascending: it is the next population.
    let ghost mutated = children@;
    score_all(&mut children, goal);
    let ghost scored = children@;
    proof {
        assert forall|u: int| 0 <= u < n implies (#[trigger] scored[u]).score == Some(
            score_spec(scored[u].data@, goal@) as usize,
        ) by {
            if mutated[u].score is Some {
                // an untouched elite: its memoized score is already correct
                assert(mutated[u] == staged[u]);
                assert(exists|i: int|
                    0 <= i < elite_count && staged[u] == old(population)@[i] && u
                        == cross_children.len() + i);
            }
        }
        assert(scored_against(scored, goal@));
    }
    sort_by_score(&mut children);
    proof {
        let fin = children@;
        assert forall|j: int| 0 <= j < fin.len() implies (#[trigger] fin[j]).score == Some(
            score_spec(fin[j].data@, goal@) as usize,
        ) by {
            lemma_permutation_element_source(scored, fin, j);
        }
        if uniform_len(old(population)@, goal@.len()) {
            assert forall|j: int| 0 <= j < fin.len() implies (#[trigger] fin[j]).data@.len()
                == goal@.len() by {
                lemma_permutation_element_source(scored, fin, j);
            }
        }
        if mutation_cap <= 1 {
            assert(mutated == staged);
            assert forall|i: int| 0 <= i < elite_count implies fin.contains(
                #[trigger] old(population)@[i],
            ) by {
                broadcast use vstd::seq_lib::group_to_multiset_ensures;

                assert(staged[cross_children.len() + i] == old(population)@[i]);
                assert(scored[cross_children.len() + i] == old(population)@[i]);
                assert(scored.contains(old(population)@[i]));
                assert(fin.to_multiset().count(old(population)@[i]) > 0);
            }
        }
        if elite_count == n && mutation_cap == 0 {
            assert(staged =~= old(population)@);
            assert(scored =~= staged);
        }
    }
    *population = children;
}

/// The run is over when the generation cap is reached or the best gene
/// matches the goal exactly.
pub fn search_finished(population: &Vec<Gene>, generation: usize, max_generations: usize) -> (r:
    bool)
    requires
        population@.len() > 0,
        all_scored(population@),
    ensures
        r <==> (generation >= max_generations || score_of(population@[0]) == 0),
{
    generation >= max_generations || population[0].score() == 0
}

/// The whole evolutionary search: seeds a random population of
/// `population_size` genes shaped like the goal, scores and sorts it, then
/// advances generations until the best score is zero (success) or the cap is
/// reached (exhaustion). Returns the number of generations stepped and the
/// final population. An empty goal is matched by every seeded gene, so the
/// loop stops at generation zero.
pub fn run(
    goal: &[u8],
    population_size: usize,
    max_generations: usize,
    elite_count: usize,
    mutation_cap: usize,
    source: &mut RandomSource,
) -> (r: (usize, Vec<Gene>))
    requires
        population_size > 0,
        elite_count <= population_size,
    ensures
        r.1@.len() == population_size,
        scored_against(r.1@, goal@),
        sorted_by_score(r.1@),
        uniform_len(r.1@, goal@.len()),
        r.0 <= max_generations,
        r.0 < max_generations ==> score_of(r.1@[0]) == 0,
        goal@.len() == 0 ==> r.0 == 0 && score_of(r.1@[0]) == 0,
{
    let mut population: Vec<Gene> = generate_random_genes(population_size, goal.len(), source);
    let ghost seeded = population@;
    score_all(&mut population, goal);
    let ghost scored = population@;
    proof {
        assert forall|i: int| 0 <= i < scored.len() implies (#[trigger] scored[i]).score == Some(
            score_spec(scored[i].data@, goal@) as usize,
        ) && scored[i].data@.len() == goal@.len() by {
            assert(ascii_seq(seeded[i].data@)) by {
                assert forall|j: int| 0 <= j < seeded[i].data@.len() implies seeded[i].data@[j]
                    < 128 by {
                    assert(alphanumeric_byte(seeded[i].data@[j]));
                }
            }
            lemma_ascii_seq_valid_utf8(seeded[i].data@);
        }
        assert(scored_against(scored, goal@));
        assert(uniform_len(scored, goal@.len()));
        if goal@.len() == 0 {
            assert forall|i: int| 0 <= i < scored.len() implies score_of(#[trigger] scored[i])
                == 0 by {
                assert(score_spec(scored[i].data@, goal@) == 0);
            }
        }
    }
    sort_by_score(&mut population);
    proof {
        let fin = population@;
        assert forall|j: int| 0 <= j < fin.len() implies (#[trigger] fin[j]).score == Some(
            score_spec(fin[j].data@, goal@) as usize,
        ) && fin[j].data@.len() == goal@.len() && (goal@.len() == 0 ==> score_of(fin[j])
            == 0) by {
            lemma_permutation_element_source(scored, fin, j);
        }
    }
    let mut generation: usize = 0;
    while generation < max_generations && population[0].score() != 0
        invariant
            population@.len() == population_size,
            population_size > 0,
            elite_count <= population_size,
            scored_against(population@, goal@),
            sorted_by_score(population@),
            uniform_len(population@, goal@.len()),
            generation <= max_generations,
            goal@.len() == 0 ==> generation == 0 && score_of(population@[0]) == 0,
        decreases max_generations - generation,
    {
        proof {
            if goal@.len() == 0 {
                assert(score_of(population@[0]) == 0);
            }
            assert(goal@.len() > 0);
        }
        next_generation(&mut population, goal, elite_count, mutation_cap, source);
        generation = generation + 1;
    }
    (generation, population)
}

} // verus!

