//! Ordered failover across a list of providers.
use vstd::prelude::*;

use super::ProviderError;
use crate::text;

verus! {

/// Providers in the order in which they are tried.
pub struct Chain<T: ?Sized> {
    providers: Vec<Box<T>>,
}

impl<T: ?Sized> Chain<T> {
    pub closed spec fn view(&self) -> Seq<Box<T>> {
        self.providers@
    }

    pub fn new(providers: Vec<Box<T>>) -> (r: Self)
        ensures
            r@ == providers@,
    {
        Chain { providers }
    }

    pub fn providers(&self) -> (r: &[Box<T>])
        ensures
            r@ == self@,
    {
        self.providers.as_slice()
    }

    pub fn len(&self) -> (r: usize)
        ensures
            r == self@.len(),
    {
        self.providers.len()
    }

    pub fn is_empty(&self) -> (r: bool)
        ensures
            r == (self@.len() == 0),
    {
        self.providers.len() == 0
    }

    /// Begins a lookup over this chain.
    pub fn begin<V>(&self) -> (r: FailoverStep<V>)
        ensures
            step_view(r) == opening::<V>(self@.len()),
            r matches FailoverStep::Ask { position, lookup } ==> position == 0 && lookup.total
                == self@.len() && lookup.errors@.len() == 0,
            r is Done <==> self@.len() == 0,
    {
        let lookup = Failover { total: self.providers.len(), errors: Vec::new() };
        assert(failure_texts(lookup.errors@) =~= seq![]);
        lookup.proceed()
    }
}

/// The message that reports the failure `err` of the provider `name`.
pub open spec fn failure_text(name: Seq<char>, err: ProviderError) -> Seq<char> {
    name + ": "@ + super::provider_error_text(err)
}

/// The messages of a run of failures, in order.
pub open spec fn failure_texts(errors: Seq<(&'static str, ProviderError)>) -> Seq<Seq<char>> {
    Seq::new(errors.len(), |i: int| failure_text(errors[i].0@, errors[i].1))
}

/// Builds the aggregate error once every provider has been exhausted.
pub fn all_failed(errors: Vec<(&'static str, ProviderError)>) -> (r: ProviderError)
    ensures
        r matches ProviderError::AllFailed(list) && text::texts(list@) == failure_texts(errors@)
            && list@.len() == errors@.len() && forall|i: int|
            0 <= i < errors@.len() ==> (#[trigger] list@[i])@ == errors@[i].0@ + ": "@
                + super::provider_error_text(errors@[i].1),
{
    let mut list: Vec<String> = Vec::new();
    for i in 0..errors.len()
        invariant
            text::texts(list@) == failure_texts(errors@).take(i as int),
    {
        let ghost before = list@;
        let entry = errors[i].0.to_string().concat(": ").concat(errors[i].1.message().as_str());
        list.push(entry);
        proof {
            assert(entry@ == failure_texts(errors@)[i as int]);
            assert(text::texts(list@) == text::texts(before).push(entry@));
        }
    }
    assert(failure_texts(errors@).take(errors@.len() as int) == failure_texts(errors@));
    assert(text::texts(list@).len() == list@.len());
    assert forall|i: int| 0 <= i < errors@.len() implies (#[trigger] list@[i])@ == errors@[i].0@
        + ": "@ + super::provider_error_text(errors@[i].1) by {
        assert(text::texts(list@)[i] == failure_texts(errors@)[i]);
    }
    ProviderError::AllFailed(list)
}

/// A lookup under way: how many providers there are, and what the ones asked
/// so far answered. Each of them failed; the next one stands right behind.
#[derive(Debug, PartialEq)]
pub struct Failover {
    pub total: usize,
    pub errors: Vec<(&'static str, ProviderError)>,
}

/// What to do next in a lookup: ask another provider, or stop.
#[derive(Debug, PartialEq)]
pub enum FailoverStep<V> {
    /// Ask the provider at `position`, and hand what it answers to `step`.
    Ask { position: usize, lookup: Failover },
    Done(Result<V, ProviderError>),
}

/// A step of a lookup, its failures as texts.
pub enum StepView<V> {
    Ask { position: nat, total: nat, failures: Seq<Seq<char>> },
    Found(V),
    AllFailed(Seq<Seq<char>>),
    Other,
}

pub open spec fn step_view<V>(step: FailoverStep<V>) -> StepView<V> {
    match step {
        FailoverStep::Ask { position, lookup } => StepView::Ask {
            position: position as nat,
            total: lookup.total as nat,
            failures: failure_texts(lookup.errors@),
        },
        FailoverStep::Done(Ok(v)) => StepView::Found(v),
        FailoverStep::Done(Err(ProviderError::AllFailed(list))) => StepView::AllFailed(
            text::texts(list@),
        ),
        FailoverStep::Done(Err(_)) => StepView::Other,
    }
}

/// The step that follows once the providers that failed so far are reported
/// by `failures`: the next provider in order, or the end of the chain.
pub open spec fn after_failures<V>(total: nat, failures: Seq<Seq<char>>) -> StepView<V> {
    if failures.len() < total {
        StepView::Ask { position: failures.len(), total, failures }
    } else {
        StepView::AllFailed(failures)
    }
}

/// The first step of a lookup over `total` providers.
pub open spec fn opening<V>(total: nat) -> StepView<V> {
    after_failures(total, seq![])
}

/// The step that follows an answer of the provider `name`.
pub open spec fn after_answer<V>(
    total: nat,
    failures: Seq<Seq<char>>,
    name: Seq<char>,
    answer: Result<V, ProviderError>,
) -> StepView<V> {
    match answer {
        Ok(v) => StepView::Found(v),
        Err(err) => after_failures(total, failures.push(failure_text(name, err))),
    }
}

impl Failover {
    fn proceed<V>(self) -> (r: FailoverStep<V>)
        ensures
            step_view(r) == after_failures::<V>(self.total as nat, failure_texts(self.errors@)),
            r matches FailoverStep::Ask { position, lookup } ==> lookup == self && position
                == self.errors@.len() && position < self.total,
    {
        if self.errors.len() < self.total {
            FailoverStep::Ask { position: self.errors.len(), lookup: self }
        } else {
            FailoverStep::Done(Err(all_failed(self.errors)))
        }
    }

    /// Takes the answer of the provider that was asked last, whose name is
    /// `name`.
    pub fn step<V>(self, name: &'static str, answer: Result<V, ProviderError>) -> (r: FailoverStep<
        V,
    >)
        ensures
            step_view(r) == after_answer::<V>(
                self.total as nat,
                failure_texts(self.errors@),
                name@,
                answer,
            ),
            r matches FailoverStep::Ask { position, lookup } ==> position == self.errors@.len() + 1
                && lookup.total == self.total && (answer matches Err(err) && lookup.errors@
                == self.errors@.push((name, err))),
            answer matches Ok(v) ==> r == FailoverStep::Done(Ok::<V, ProviderError>(v)),
            answer is Err && self.errors@.len() + 1 < self.total ==> r is Ask,
    {
        match answer {
            Ok(v) => FailoverStep::Done(Ok(v)),
            Err(err) => {
                let mut next = self;
                let ghost before = next.errors@;
                next.errors.push((name, err));
                assert(failure_texts(next.errors@) == failure_texts(before).push(
                    failure_text(name@, err),
                ));
                next.proceed()
            },
        }
    }
}

/// What a lookup comes to when the provider at position `i` is called
/// `answers[i].0` and answers `answers[i].1`: the steps, one after the other,
/// from the one where those in `failures` have already failed.
pub open spec fn run_from<V>(
    answers: Seq<(Seq<char>, Result<V, ProviderError>)>,
    failures: Seq<Seq<char>>,
) -> StepView<V>
    decreases answers.len() - failures.len(),
{
    if failures.len() >= answers.len() {
        after_failures(answers.len(), failures)
    } else {
        let answer = answers[failures.len() as int];
        match after_answer(answers.len(), failures, answer.0, answer.1) {
            StepView::Ask { position: _, total: _, failures: more } => run_from(answers, more),
            end => end,
        }
    }
}

/// The failures that the first `n` answers report.
pub open spec fn reports<V>(answers: Seq<(Seq<char>, Result<V, ProviderError>)>, n: int) -> Seq<
    Seq<char>,
> {
    Seq::new(n as nat, |i: int| failure_text(answers[i].0, answers[i].1->Err_0))
}

proof fn lemma_run<V>(answers: Seq<(Seq<char>, Result<V, ProviderError>)>, n: int, k: int)
    requires
        0 <= n <= k <= answers.len(),
        forall|i: int| 0 <= i < k ==> (#[trigger] answers[i]).1 is Err,
        k < answers.len() ==> answers[k].1 is Ok,
    ensures
        run_from(answers, reports(answers, n)) == (if k < answers.len() {
            StepView::Found(answers[k].1->Ok_0)
        } else {
            StepView::AllFailed(reports(answers, k))
        }),
    decreases k - n,
{
    if n < k {
        assert(answers[n].1 is Err);
        assert(reports(answers, n).push(failure_text(answers[n].0, answers[n].1->Err_0))
            =~= reports(answers, n + 1));
        lemma_run(answers, n + 1, k);
    }
}

/// The first provider that answers wins: a lookup over providers of which the
/// first `k` fail and the next one succeeds finds what that one answered,
/// whatever the providers behind it would have said.
pub proof fn lemma_first_success_wins<V>(
    answers: Seq<(Seq<char>, Result<V, ProviderError>)>,
    k: int,
)
    requires
        0 <= k < answers.len(),
        forall|i: int| 0 <= i < k ==> (#[trigger] answers[i]).1 is Err,
        answers[k].1 is Ok,
    ensures
        run_from(answers, seq![]) == StepView::Found(answers[k].1->Ok_0),
{
    assert(reports(answers, 0) =~= seq![]);
    lemma_run(answers, 0, k);
}

/// A lookup over providers that all fail reports every one of them, by name
/// and in order.
pub proof fn lemma_total_failure_reports_all<V>(
    answers: Seq<(Seq<char>, Result<V, ProviderError>)>,
)
    requires
        forall|i: int| 0 <= i < answers.len() ==> (#[trigger] answers[i]).1 is Err,
    ensures
        run_from(answers, seq![]) == StepView::<V>::AllFailed(reports(answers, answers.len() as int)),
{
    assert(reports(answers, 0) =~= seq![]);
    lemma_run(answers, 0, answers.len() as int);
}

/// A lookup that was answered asks no one further: it has no next provider.
pub proof fn lemma_answer_ends_lookup<V>(total: nat, failures: Seq<Seq<char>>, name: Seq<char>, v: V)
    ensures
        after_answer(total, failures, name, Ok::<V, ProviderError>(v)) == StepView::Found(v),
        !(after_answer(total, failures, name, Ok::<V, ProviderError>(v)) is Ask),
{
}

/// A lookup after `n` more answers, each of them given by the provider that the
/// lookup asked for: the one at the step's own position.
pub open spec fn played<V>(
    answers: Seq<(Seq<char>, Result<V, ProviderError>)>,
    step: StepView<V>,
    n: nat,
) -> StepView<V>
    decreases n,
{
    if n == 0 {
        step
    } else {
        match step {
            StepView::Ask { position, total, failures } => {
                let answer = answers[position as int];
                played(
                    answers,
                    after_answer(total, failures, answer.0, answer.1),
                    (n - 1) as nat,
                )
            },
            end => end,
        }
    }
}

proof fn lemma_played<V>(
    answers: Seq<(Seq<char>, Result<V, ProviderError>)>,
    from: nat,
    n: nat,
)
    requires
        from + n <= answers.len(),
        from < answers.len(),
        forall|i: int| 0 <= i < from + n ==> (#[trigger] answers[i]).1 is Err,
    ensures
        ({
            let start = StepView::<V>::Ask {
                position: from,
                total: answers.len(),
                failures: reports(answers, from as int),
            };
            let end = (from + n) as int;
            played(answers, start, n) == (if end < answers.len() {
                StepView::<V>::Ask {
                    position: (from + n) as nat,
                    total: answers.len(),
                    failures: reports(answers, end),
                }
            } else {
                StepView::<V>::AllFailed(reports(answers, end))
            })
        }),
    decreases n,
{
    if n > 0 {
        let answer = answers[from as int];
        assert(answer.1 is Err);
        assert(reports(answers, from as int).push(failure_text(answer.0, answer.1->Err_0))
            =~= reports(answers, from as int + 1));
        if from + 1 < answers.len() {
            lemma_played(answers, from + 1, (n - 1) as nat);
        } else {
            assert(n == 1);
            reveal_with_fuel(played, 2);
        }
    }
}

/// Providers are asked in order, each of them once: after `n` failures the next
/// one to ask is the one at position `n`, and where there is none left, the
/// lookup has failed with one report for every provider, in order.
pub proof fn lemma_providers_are_asked_in_order<V>(
    answers: Seq<(Seq<char>, Result<V, ProviderError>)>,
    n: nat,
)
    requires
        n <= answers.len(),
        forall|i: int| 0 <= i < n ==> (#[trigger] answers[i]).1 is Err,
    ensures
        n < answers.len() ==> played(answers, opening::<V>(answers.len()), n) == (
        StepView::<V>::Ask {
            position: n,
            total: answers.len(),
            failures: reports(answers, n as int),
        }),
        n == answers.len() ==> played(answers, opening::<V>(answers.len()), n)
            == StepView::<V>::AllFailed(reports(answers, n as int)),
{
    assert(reports(answers, 0) =~= seq![]);
    if answers.len() > 0 {
        lemma_played(answers, 0, n);
    }
}

/// A lookup that hands each question to the provider it names finds what the
/// first provider that answers said, after asking that one and those before it.
pub proof fn lemma_lookup_finds_first_answer<V>(
    answers: Seq<(Seq<char>, Result<V, ProviderError>)>,
    k: nat,
)
    requires
        k < answers.len(),
        forall|i: int| 0 <= i < k ==> (#[trigger] answers[i]).1 is Err,
        answers[k as int].1 is Ok,
    ensures
        played(answers, opening::<V>(answers.len()), k + 1) == StepView::Found(
            answers[k as int].1->Ok_0,
        ),
{
    lemma_providers_are_asked_in_order(answers, k);
    lemma_play_on(answers, opening::<V>(answers.len()), k);
    assert(played(answers, opening::<V>(answers.len()), k) is Ask);
    reveal_with_fuel(played, 2);
}

proof fn lemma_play_on<V>(
    answers: Seq<(Seq<char>, Result<V, ProviderError>)>,
    step: StepView<V>,
    n: nat,
)
    ensures
        played(answers, step, n + 1) == played(answers, played(answers, step, n), 1),
    decreases n,
{
    reveal_with_fuel(played, 2);
    if n > 0 {
        match step {
            StepView::Ask { position, total, failures } => {
                let answer = answers[position as int];
                lemma_play_on(
                    answers,
                    after_answer(total, failures, answer.0, answer.1),
                    (n - 1) as nat,
                );
            },
            _ => {},
        }
    }
}

/// A report names the provider first and then says what went wrong with it, so
/// reports of differently named providers of one length differ.
pub proof fn lemma_report_names_provider(name: Seq<char>, err: ProviderError)
    ensures
        failure_text(name, err).take(name.len() as int) == name,
        failure_text(name, err).skip(name.len() as int + 2) == super::provider_error_text(err),
        failure_text(name, err)[name.len() as int] == ':',
{
    reveal_strlit(": ");
    let t = failure_text(name, err);
    assert(t.take(name.len() as int) =~= name);
    assert(t.skip(name.len() as int + 2) =~= super::provider_error_text(err));
}

} // verus!
