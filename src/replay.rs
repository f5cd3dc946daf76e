use vstd::prelude::*;

use crate::numbering::{
    counter_after, lemma_counter_bound, lemma_numbering_continues, lemma_plain_is_verbatim, numbered,
    Policy,
};
use crate::stream::{report, Config, Emit, Event, LineStreamer, RunError, Action};

verus! {

broadcast use vstd::seq_lib::group_seq_properties;

/// What reading one source gave: it could not be opened; it was read to the end; or
/// reading failed after some lines.
#[derive(Debug)]
pub enum SourceOutcome {
    Unavailable(String),
    Complete(Vec<String>),
    Interrupted(Vec<String>, String),
}

/// What a run wrote and how it ended.
#[derive(Debug)]
pub struct RunOutput {
    pub stdout: String,
    pub stderr: Vec<String>,
    pub result: Result<(), RunError>,
}

pub open spec fn texts(v: Seq<String>) -> Seq<Seq<char>> {
    v.map_values(|s: String| s@)
}

/// The lines that a source gave before it ended.
pub open spec fn outcome_lines(o: SourceOutcome) -> Seq<Seq<char>> {
    match o {
        SourceOutcome::Unavailable(_) => Seq::empty(),
        SourceOutcome::Complete(v) => texts(v@),
        SourceOutcome::Interrupted(v, _) => texts(v@),
    }
}

/// Whether reading one of the sources failed.
pub open spec fn halted(os: Seq<SourceOutcome>) -> bool {
    exists|i: int| 0 <= i < os.len() && (#[trigger] os[i]) is Interrupted
}

/// The lines that a run reads: those of each source in order, up to and including
/// the source whose reading failed.
pub open spec fn read_lines(os: Seq<SourceOutcome>) -> Seq<Seq<char>>
    decreases os.len(),
{
    if os.len() == 0 {
        Seq::empty()
    } else if halted(os.drop_last()) {
        read_lines(os.drop_last())
    } else {
        read_lines(os.drop_last()) + outcome_lines(os.last())
    }
}

/// The lines that a run reports on standard error: one for each source, named in
/// `ids`, that could not be opened, up to the source whose reading failed.
pub open spec fn reports(ids: Seq<Seq<char>>, os: Seq<SourceOutcome>) -> Seq<Seq<char>>
    decreases os.len(),
{
    if os.len() == 0 {
        Seq::empty()
    } else if halted(os.drop_last()) {
        reports(ids, os.drop_last())
    } else {
        match os.last() {
            SourceOutcome::Unavailable(reason) => reports(ids, os.drop_last()).push(
                report(ids[os.len() - 1], reason@),
            ),
            _ => reports(ids, os.drop_last()),
        }
    }
}

/// What a run writes on standard output.
pub open spec fn run_stdout(policy: Policy, os: Seq<SourceOutcome>) -> Seq<char> {
    numbered(policy, 1, read_lines(os)).flatten()
}

proof fn lemma_read_lines_prefix(os: Seq<SourceOutcome>, k: int)
    requires
        0 <= k <= os.len(),
    ensures
        read_lines(os.take(k)).len() <= read_lines(os).len(),
    decreases os.len(),
{
    if k == os.len() {
        assert(os.take(k) =~= os);
    } else {
        lemma_read_lines_prefix(os.drop_last(), k);
        assert(os.drop_last().take(k) =~= os.take(k));
    }
}

proof fn lemma_halt_freezes(ids: Seq<Seq<char>>, os: Seq<SourceOutcome>, m: int)
    requires
        0 <= m <= os.len(),
        halted(os.take(m)),
    ensures
        read_lines(os) == read_lines(os.take(m)),
        reports(ids, os) == reports(ids, os.take(m)),
    decreases os.len(),
{
    if m == os.len() {
        assert(os.take(m) =~= os);
    } else {
        let i = choose|i: int| 0 <= i < os.take(m).len() && (#[trigger] os.take(m)[i]) is Interrupted;
        assert(os.drop_last()[i] == os.take(m)[i]);
        assert(halted(os.drop_last()));
        assert(os.drop_last().take(m) =~= os.take(m));
        lemma_halt_freezes(ids, os.drop_last(), m);
    }
}

proof fn lemma_not_halted_prefix(os: Seq<SourceOutcome>, k: int)
    requires
        0 <= k < os.len(),
        !halted(os.take(k)),
    ensures
        os.take(k + 1).drop_last() == os.take(k),
        os.take(k + 1).last() == os[k],
        !(os[k] is Interrupted) ==> !halted(os.take(k + 1)),
        os[k] is Interrupted ==> halted(os.take(k + 1)),
{
    assert(os.take(k + 1).drop_last() =~= os.take(k));
    if os[k] is Interrupted {
        assert(os.take(k + 1)[k] is Interrupted);
    } else {
        assert forall|i: int| 0 <= i < os.take(k + 1).len() implies !(
        #[trigger] os.take(k + 1)[i] is Interrupted) by {
            if i < k {
                assert(os.take(k)[i] == os.take(k + 1)[i]);
            }
        }
    }
}

/// Without numbering, standard output is the lines read, in order, each followed by
/// a line terminator and nothing else.
pub proof fn lemma_plain_run_is_verbatim(os: Seq<SourceOutcome>)
    ensures
        run_stdout(Policy::Plain, os) == read_lines(os).map_values(
            |l: Seq<char>| l.push('\n'),
        ).flatten(),
{
    lemma_plain_is_verbatim(1, read_lines(os));
}

/// Each source, before any reading has failed, adds its own lines to what is read;
/// one that cannot be opened adds no line and exactly one report, and one that was
/// opened adds no report.
pub proof fn lemma_source_contribution(ids: Seq<Seq<char>>, os: Seq<SourceOutcome>, k: int)
    requires
        0 <= k < os.len(),
        !halted(os.take(k)),
    ensures
        read_lines(os.take(k + 1)) == read_lines(os.take(k)) + outcome_lines(os[k]),
        os[k] is Unavailable ==> outcome_lines(os[k]) == Seq::<Seq<char>>::empty(),
        os[k] is Unavailable ==> reports(ids, os.take(k + 1)) == reports(ids, os.take(k)).push(
            report(ids[k], os[k]->Unavailable_0@),
        ),
        !(os[k] is Unavailable) ==> reports(ids, os.take(k + 1)) == reports(ids, os.take(k)),
{
    lemma_not_halted_prefix(os, k);
}

/// The numbering of a run does not start again at a new source: the lines of source
/// `k` are numbered from where the sources before it left the counter.
pub proof fn lemma_run_numbering_continues(policy: Policy, os: Seq<SourceOutcome>, k: int)
    requires
        0 <= k < os.len(),
        !halted(os.take(k)),
    ensures
        numbered(policy, 1, read_lines(os.take(k + 1))) == numbered(
            policy,
            1,
            read_lines(os.take(k)),
        ) + numbered(policy, counter_after(policy, 1, read_lines(os.take(k))), outcome_lines(os[k])),
{
    lemma_not_halted_prefix(os, k);
    lemma_numbering_continues(policy, 1, read_lines(os.take(k)), outcome_lines(os[k]));
}

/// Two sources that gave the same lines, failed in the same way or were missing for
/// the same reason.
pub open spec fn same_outcome(a: SourceOutcome, b: SourceOutcome) -> bool {
    &&& outcome_lines(a) == outcome_lines(b)
    &&& (a is Unavailable <==> b is Unavailable)
    &&& (a is Interrupted <==> b is Interrupted)
    &&& a is Unavailable ==> a->Unavailable_0@ == b->Unavailable_0@
    &&& a is Interrupted ==> a->Interrupted_1@ == b->Interrupted_1@
}

/// A run depends on the configuration and on what the sources gave, nothing else:
/// two runs over the same contents write the same bytes and end the same way.
pub proof fn lemma_run_repeats(
    policy: Policy,
    ids: Seq<Seq<char>>,
    os1: Seq<SourceOutcome>,
    os2: Seq<SourceOutcome>,
)
    requires
        os1.len() == os2.len(),
        forall|i: int| 0 <= i < os1.len() ==> same_outcome(#[trigger] os1[i], os2[i]),
    ensures
        read_lines(os1) == read_lines(os2),
        run_stdout(policy, os1) == run_stdout(policy, os2),
        reports(ids, os1) == reports(ids, os2),
        halted(os1) == halted(os2),
    decreases os1.len(),
{
    if os1.len() > 0 {
        lemma_run_repeats(policy, ids, os1.drop_last(), os2.drop_last());
        assert(same_outcome(os1[os1.len() - 1], os2[os2.len() - 1]));
    }
    if halted(os1) {
        let i = choose|i: int| 0 <= i < os1.len() && (#[trigger] os1[i]) is Interrupted;
        assert(same_outcome(os1[i], os2[i]));
    }
    if halted(os2) {
        let i = choose|i: int| 0 <= i < os2.len() && (#[trigger] os2[i]) is Interrupted;
        assert(same_outcome(os1[i], os2[i]));
    }
}

/// Runs the decisions of a run over sources whose contents are given: `outcomes[i]`
/// is what reading `config.files[i]` gave.
#[verifier::rlimit(40)]
pub fn run_with_outcomes(config: &Config, outcomes: &Vec<SourceOutcome>) -> (r: RunOutput)
    requires
        outcomes.len() == config.files.len(),
        read_lines(outcomes@).len() < u64::MAX,
    ensures
        r.stdout@ == run_stdout(config.spec_policy(), outcomes@),
        texts(r.stderr@) == reports(texts(config.files@), outcomes@),
        r.result is Ok <==> !halted(outcomes@),
        r.result is Err ==> exists|i: int|
            0 <= i < outcomes.len() && (#[trigger] outcomes@[i]) is Interrupted && !halted(
                outcomes@.take(i),
            ) && r.result->Err_0.source@ == config.files@[i]@ && r.result->Err_0.reason@
                == outcomes@[i]->Interrupted_1@,
{
    let ghost os = outcomes@;
    let ghost ids = texts(config.files@);
    let ghost p = config.spec_policy();
    let n = outcomes.len();
    let mut st = LineStreamer::new(config);
    let mut stdout = String::new();
    let mut stderr: Vec<String> = Vec::new();
    let mut k: usize = 0;
    assert(os.take(0) =~= Seq::<SourceOutcome>::empty());
    assert(stdout@ =~= numbered(p, 1, read_lines(os.take(0))).flatten());
    assert(texts(stderr@) =~= reports(ids, os.take(0)));
    while k < n
        invariant
            n == os.len(),
            os == outcomes@,
            n == st.sources.len(),
            ids == texts(config.files@),
            st.sources@ == config.files@,
            p == config.spec_policy(),
            st.wf(),
            st.policy == p,
            st.current == k,
            st.phase is Opening,
            k <= n,
            !halted(os.take(k as int)),
            st.counter == counter_after(p, 1, read_lines(os.take(k as int))),
            stdout@ == numbered(p, 1, read_lines(os.take(k as int))).flatten(),
            texts(stderr@) == reports(ids, os.take(k as int)),
            read_lines(os).len() < u64::MAX,
        decreases n - k,
    {
        proof {
            lemma_not_halted_prefix(os, k as int);
            lemma_read_lines_prefix(os, k as int + 1);
        }
        let ghost before = read_lines(os.take(k as int));
        match &outcomes[k] {
            SourceOutcome::Unavailable(reason) => {
                proof {
                    lemma_counter_bound(p, 1, before);
                }
                let e = st.handle(Event::OpenFailed(reason.clone()));
                match e {
                    Emit::Stderr(msg) => {
                        stderr.push(msg);
                    },
                    _ => {},
                }
                proof {
                    assert(read_lines(os.take(k + 1)) =~= before);
                    assert(texts(stderr@) =~= reports(ids, os.take(k + 1)));
                }
                k = k + 1;
            },
            SourceOutcome::Complete(lines) | SourceOutcome::Interrupted(lines, _) => {
                proof {
                    lemma_counter_bound(p, 1, before);
                }
                let _ = st.handle(Event::Opened);
                let ghost w = texts(lines@);
                assert(before + w.take(0) =~= before);
                assert(read_lines(os.take(k + 1)) == before + w);
                let mut j: usize = 0;
                while j < lines.len()
                    invariant
                        w == texts(lines@),
                        j <= lines.len(),
                        st.wf(),
                        st.sources@ == config.files@,
                        st.policy == p,
                        st.current == k,
                        k < n,
                        n == st.sources.len(),
                        st.phase is Streaming,
                        st.counter == counter_after(p, 1, before + w.take(j as int)),
                        stdout@ == numbered(p, 1, before + w.take(j as int)).flatten(),
                        (before + w).len() <= read_lines(os).len(),
                        read_lines(os).len() < u64::MAX,
                    decreases lines.len() - j,
                {
                    proof {
                        lemma_counter_bound(p, 1, before + w.take(j as int));
                    }
                    let e = st.handle(Event::Line(lines[j].clone()));
                    let ghost prev = before + w.take(j as int);
                    let ghost next = before + w.take(j as int + 1);
                    proof {
                        assert(next.drop_last() =~= prev);
                        assert(next.last() == lines@[j as int]@);
                    }
                    match e {
                        Emit::Stdout(out) => {
                            stdout.append(out.as_str());
                        },
                        _ => {},
                    }
                    proof {
                        numbered(p, 1, prev).lemma_flatten_push(
                            numbered(p, 1, next).last(),
                        );
                        assert(numbered(p, 1, next) == numbered(p, 1, prev).push(
                            numbered(p, 1, next).last(),
                        ));
                    }
                    j = j + 1;
                }
                assert(w.take(lines.len() as int) =~= w);
                match &outcomes[k] {
                    SourceOutcome::Interrupted(_, reason) => {
                        let _ = st.handle(Event::ReadFailed(reason.clone()));
                        proof {
                            lemma_halt_freezes(ids, os, k as int + 1);
                            assert(reports(ids, os.take(k + 1)) == reports(ids, os.take(k as int)));
                        }
                        let result = match st.next_action() {
                            Action::Done(res) => res,
                            _ => Ok(()),
                        };
                        assert(os[k as int] is Interrupted);
                        assert(halted(os));
                        return RunOutput { stdout, stderr, result };
                    },
                    _ => {
                        let _ = st.handle(Event::EndOfInput);
                        proof {
                            assert(reports(ids, os.take(k + 1)) == reports(ids, os.take(k as int)));
                        }
                        k = k + 1;
                    },
                }
            },
        }
    }
    assert(os.take(n as int) =~= os);
    let result = match st.next_action() {
        Action::Done(res) => res,
        _ => Ok(()),
    };
    RunOutput { stdout, stderr, result }
}

} // verus!
