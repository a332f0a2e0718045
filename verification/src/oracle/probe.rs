//! Finding out which switches make the engine talk: each is tried with every
//! value that may mean yes, and the value that brought the most is kept.
use vstd::prelude::*;
use super::{switch_list, switched, trace_switches, Param, ProbeResult, Probed, Switch,
    PROBE_VALUES};

verus! {

/// Results as mathematics.
pub open spec fn probed(v: Seq<ProbeResult>) -> Seq<Probed> {
    v.map_values(|p: ProbeResult| p@)
}

/// What is known of a switch before it is tried.
pub open spec fn untried(k: int, quiet: (int, int)) -> Probed {
    Probed {
        key: switch_list()[k].0,
        stage: switch_list()[k].2,
        with: quiet,
        without: quiet,
        error: None,
    }
}

/// A switch after its first `n` tries.
pub open spec fn after_tries(p: Probed, tries: Seq<Result<(int, int), Seq<char>>>, n: nat) -> Probed
    decreases n,
{
    if n == 0 {
        p
    } else {
        after_tries(p, tries, (n - 1) as nat).tried(tries[n - 1])
    }
}

/// The tries that belong to a switch, nine to each.
pub open spec fn tries_of(tries: Seq<Result<(int, int), Seq<char>>>, k: int) -> Seq<
    Result<(int, int), Seq<char>>,
> {
    tries.subrange(
        9 * k,
        if 9 * k + 9 < tries.len() {
            9 * k + 9
        } else {
            tries.len() as int
        },
    )
}

/// The results of the switches that were begun, each after its own tries.
pub open spec fn results_of(
    quiet: (int, int),
    tries: Seq<Result<(int, int), Seq<char>>>,
) -> Seq<Probed> {
    Seq::new(
        if tries.len() < 54 {
            (tries.len() / 9 + 1) as nat
        } else {
            6
        },
        |k: int| after_tries(untried(k, quiet), tries_of(tries, k), tries_of(tries, k).len()),
    )
}

/// Tries under way.
pub struct Probing {
    quiet: (usize, usize),
    results: Vec<ProbeResult>,
    count: usize,
    tries: Ghost<Seq<Result<(int, int), Seq<char>>>>,
}

/// Tries as mathematics.
pub struct Tries {
    /// Bytes of trace and standard output without any switch.
    pub quiet: (int, int),
    /// What each try brought.
    pub tries: Seq<Result<(int, int), Seq<char>>>,
}

impl View for Probing {
    type V = Tries;

    closed spec fn view(&self) -> Tries {
        Tries { quiet: (self.quiet.0 as int, self.quiet.1 as int), tries: self.tries@ }
    }
}

/// What a try brought, as mathematics.
pub open spec fn brought(got: Result<(usize, usize), String>) -> Result<(int, int), Seq<char>> {
    match got {
        Ok((t, s)) => Ok((t as int, s as int)),
        Err(e) => Err(e@),
    }
}

proof fn more_tries_later(
    p: Probed,
    tries: Seq<Result<(int, int), Seq<char>>>,
    got: Result<(int, int), Seq<char>>,
    n: nat,
)
    requires
        n <= tries.len(),
    ensures
        after_tries(p, tries.push(got), n) == after_tries(p, tries, n),
    decreases n,
{
    if n > 0 {
        more_tries_later(p, tries, got, (n - 1) as nat);
    }
}

impl Probing {
    #[verifier::type_invariant]
    spec fn inv(self) -> bool {
        &&& self.count == self.tries@.len() <= 54
        &&& probed(self.results@) == results_of(
            (self.quiet.0 as int, self.quiet.1 as int),
            self.tries@,
        )
    }

    /// Begins, given the bytes of trace and standard output without any switch.
    pub fn begin(trace: usize, stdout: usize) -> (r: Self)
        ensures
            r@ == (Tries { quiet: (trace as int, stdout as int), tries: Seq::empty() }),
    {
        let all: Vec<Switch> = trace_switches();
        assert(switched(all@).len() == all@.len());
        assert(switched(all@)[0] == (all@[0].key@, all@[0].value@, all@[0].stage));
        let first: ProbeResult = ProbeResult::new(all[0].key, all[0].stage, trace, stdout);
        let results: Vec<ProbeResult> = vec![first];
        let ghost none = Seq::<Result<(int, int), Seq<char>>>::empty();
        assert(tries_of(none, 0) =~= none);
        assert(probed(results@) =~= results_of((trace as int, stdout as int), none));
        Probing { quiet: (trace, stdout), results, count: 0, tries: Ghost(Seq::empty()) }
    }

    /// The parameter to try next, and the value to try it with. Nothing where
    /// all were tried.
    pub fn wanted(&self) -> (r: Option<Param>)
        ensures
            match r {
                Some(p) => {
                    &&& self@.tries.len() < 54
                    &&& p.key@ == switch_list()[self@.tries.len() as int / 9].0
                    &&& p.value@ == PROBE_VALUES@[self@.tries.len() as int % 9]@
                },
                None => self@.tries.len() == 54,
            },
    {
        proof {
            use_type_invariant(self);
        }
        if self.count >= 54 {
            return None;
        }
        let all: Vec<Switch> = trace_switches();
        assert(switched(all@).len() == all@.len());
        let k: usize = self.count / 9;
        assert(switched(all@)[k as int] == (
            all@[k as int].key@,
            all@[k as int].value@,
            all@[k as int].stage,
        ));
        Some(
            Param {
                key: all[k].key.to_owned(),
                value: PROBE_VALUES[self.count % 9].to_owned(),
            },
        )
    }

    /// Takes what the try brought.
    pub fn took(self, got: Result<(usize, usize), String>) -> (r: Self)
        requires
            self@.tries.len() < 54,
        ensures
            r@ == (Tries { tries: self@.tries.push(brought(got)), ..self@ }),
    {
        proof {
            use_type_invariant(&self);
        }
        let ghost was = self.tries@;
        let ghost now = was.push(brought(got));
        let Probing { quiet, mut results, count, tries: _ } = self;
        let ghost q = (quiet.0 as int, quiet.1 as int);
        let ghost before = probed(results@);
        let k: usize = count / 9;
        assert(before.len() == k + 1);
        proof {
            assert(before[k as int] == results@[k as int]@);
            assert(tries_of(now, k as int) =~= tries_of(was, k as int).push(brought(got)));
            more_tries_later(
                untried(k as int, q),
                tries_of(was, k as int),
                brought(got),
                tries_of(was, k as int).len(),
            );
            assert forall|j: int| 0 <= j < k implies tries_of(now, j) == tries_of(was, j) by {
                assert(tries_of(now, j) =~= tries_of(was, j));
            }
        }
        results[k].consider(got);
        let ghost tried = probed(results@);
        assert(tried =~= before.update(k as int, before[k as int].tried(brought(got))));
        if (count + 1) % 9 == 0 && count + 1 < 54 {
            let all: Vec<Switch> = trace_switches();
            assert(switched(all@).len() == all@.len());
            assert(switched(all@)[k + 1] == (
                all@[k + 1].key@,
                all@[k + 1].value@,
                all@[k + 1].stage,
            ));
            let next: ProbeResult = ProbeResult::new(
                all[k + 1].key,
                all[k + 1].stage,
                quiet.0,
                quiet.1,
            );
            results.push(next);
            assert(tries_of(now, k + 1).len() == 0);
            assert(probed(results@) =~= tried.push(next@));
        }
        assert(probed(results@) =~= results_of(q, now));
        Probing { quiet, results, count: count + 1, tries: Ghost(now) }
    }

    /// What the switches brought, of those that were begun.
    pub fn results(self) -> (r: Vec<ProbeResult>)
        ensures
            probed(r@) == results_of(self@.quiet, self@.tries),
    {
        proof {
            use_type_invariant(&self);
        }
        self.results
    }
}

/// A try never makes a result less than it was, and what it is held against
/// stays.
pub proof fn tries_never_lose(p: Probed, got: Result<(int, int), Seq<char>>)
    ensures
        p.tried(got).with.0 + p.tried(got).with.1 >= p.with.0 + p.with.1,
        p.tried(got).without == p.without,
        p.tried(got).key == p.key,
        p.tried(got).stage == p.stage,
{
}

proof fn same_switch_throughout(
    p: Probed,
    tries: Seq<Result<(int, int), Seq<char>>>,
    n: nat,
)
    ensures
        after_tries(p, tries, n).key == p.key,
        after_tries(p, tries, n).stage == p.stage,
    decreases n,
{
    if n > 0 {
        same_switch_throughout(p, tries, (n - 1) as nat);
    }
}

/// When all was tried there is one result for each switch, in their order.
pub proof fn every_switch_is_probed(
    quiet: (int, int),
    tries: Seq<Result<(int, int), Seq<char>>>,
    k: int,
)
    requires
        tries.len() == 54,
        0 <= k < 6,
    ensures
        results_of(quiet, tries).len() == switch_list().len(),
        results_of(quiet, tries)[k].key == switch_list()[k].0,
        results_of(quiet, tries)[k].stage == switch_list()[k].2,
{
    same_switch_throughout(untried(k, quiet), tries_of(tries, k), tries_of(tries, k).len());
}

/// The best try is kept: a switch brought no less than any of its tries did, and
/// what went wrong once takes nothing from a switch that brought something.
pub proof fn best_tries_are_kept(
    p: Probed,
    tries: Seq<Result<(int, int), Seq<char>>>,
    n: nat,
    i: int,
)
    requires
        0 <= i < n <= tries.len(),
    ensures
        ({
            let r = after_tries(p, tries, n);
            &&& tries[i] matches Ok((t, s)) ==> t + s <= r.with.0 + r.with.1
            &&& r.with == p.with || exists|j: int|
                0 <= j < n && #[trigger] tries[j] == Ok::<(int, int), Seq<char>>(r.with)
        }),
    decreases n,
{
    let b = after_tries(p, tries, (n - 1) as nat);
    let r = after_tries(p, tries, n);
    tries_never_lose(b, tries[n - 1]);
    if n > 1 {
        if i < n - 1 {
            best_tries_are_kept(p, tries, (n - 1) as nat, i);
        } else {
            best_tries_are_kept(p, tries, (n - 1) as nat, 0);
        }
    }
    if r.with != b.with {
        assert(tries[n - 1] == Ok::<(int, int), Seq<char>>(r.with));
    }
}

/// A try that fails is told of only where nothing was brought before it, and one
/// that brings more makes good what went wrong.
pub proof fn failures_are_told_last(p: Probed, e: Seq<char>, t: int, s: int)
    ensures
        p.error is None && p.with.0 > p.without.0 ==> p.tried(Err(e)) == p,
        p.with == p.without ==> p.tried(Err(e)).error == Some(e),
        t + s > p.with.0 + p.with.1 ==> p.tried(Ok((t, s))).error is None && p.tried(
            Ok((t, s)),
        ).with == (t, s),
{
}

} // verus!
