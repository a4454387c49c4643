use vstd::prelude::*;

verus! {

/// Exit code with which the probe program reports that the host name or
/// address could not be resolved.
pub const RESOLVER_FAILURE_CODE: i32 = 2;

/// The classified result of one probe of one host.
#[derive(Clone, Copy, Debug, PartialEq, Eq, Structural)]
pub enum ProbeOutcome {
    Reachable,
    Unreachable,
    Unresolvable,
    ProbeFailed,
}

/// The stable label under which an outcome is stored and compared.
#[derive(Clone, Copy, Debug, PartialEq, Eq, Structural)]
pub enum StatusLabel {
    Up,
    Down,
    Unresolvable,
    ThreadError,
}

/// What a probe program that ran to completion reported: whether it
/// succeeded, and its exit code if it had one.
#[derive(Clone, Copy, Debug, PartialEq, Eq, Structural)]
pub struct ProbeReport {
    pub success: bool,
    pub code: Option<i32>,
}

/// The outcome of a probe: `None` when the probe program could not be started.
pub open spec fn outcome_of(report: Option<ProbeReport>) -> ProbeOutcome {
    match report {
        None => ProbeOutcome::ProbeFailed,
        Some(r) => if r.success {
            ProbeOutcome::Reachable
        } else if r.code == Some(RESOLVER_FAILURE_CODE) {
            ProbeOutcome::Unresolvable
        } else {
            ProbeOutcome::Unreachable
        },
    }
}

pub open spec fn label_of(o: ProbeOutcome) -> StatusLabel {
    match o {
        ProbeOutcome::Reachable => StatusLabel::Up,
        ProbeOutcome::Unreachable => StatusLabel::Down,
        ProbeOutcome::Unresolvable => StatusLabel::Unresolvable,
        ProbeOutcome::ProbeFailed => StatusLabel::ThreadError,
    }
}

pub open spec fn label_text(l: StatusLabel) -> Seq<char> {
    match l {
        StatusLabel::Up => seq!['U', 'P'],
        StatusLabel::Down => seq!['D', 'O', 'W', 'N'],
        StatusLabel::Unresolvable => seq![
            'U', 'N', 'R', 'E', 'S', 'O', 'L', 'V', 'A', 'B', 'L', 'E',
        ],
        StatusLabel::ThreadError => seq![
            'T', 'H', 'R', 'E', 'A', 'D', '_', 'E', 'R', 'R', 'O', 'R',
        ],
    }
}

/// Classifies one probe attempt; `None` means the probe program could not
/// be started at all.
pub fn classify(report: Option<ProbeReport>) -> (r: ProbeOutcome)
    ensures
        r == outcome_of(report),
{
    match report {
        None => ProbeOutcome::ProbeFailed,
        Some(rep) => {
            if rep.success {
                ProbeOutcome::Reachable
            } else {
                match rep.code {
                    Some(c) => {
                        if c == RESOLVER_FAILURE_CODE {
                            ProbeOutcome::Unresolvable
                        } else {
                            ProbeOutcome::Unreachable
                        }
                    },
                    None => ProbeOutcome::Unreachable,
                }
            }
        },
    }
}

/// The outcome of one probe unit after it was joined: a unit that aborted
/// before handing back its outcome counts as a failed probe.
pub open spec fn joined_outcome(joined: Option<ProbeOutcome>) -> ProbeOutcome {
    match joined {
        Some(o) => o,
        None => ProbeOutcome::ProbeFailed,
    }
}

pub fn settle(joined: Option<ProbeOutcome>) -> (r: ProbeOutcome)
    ensures
        r == joined_outcome(joined),
{
    match joined {
        Some(o) => o,
        None => ProbeOutcome::ProbeFailed,
    }
}

pub open spec fn round_outcomes(joined: Seq<Option<ProbeOutcome>>) -> Seq<ProbeOutcome> {
    joined.map_values(|j: Option<ProbeOutcome>| joined_outcome(j))
}

/// Turns the joined results of one round's probe units, one per host in
/// host order, into one outcome per host.
pub fn collect_round(joined: &Vec<Option<ProbeOutcome>>) -> (r: Vec<ProbeOutcome>)
    ensures
        r@ == round_outcomes(joined@),
{
    let mut out: Vec<ProbeOutcome> = Vec::new();
    let mut i: usize = 0;
    while i < joined.len()
        invariant
            i <= joined.len(),
            out@ == round_outcomes(joined@.subrange(0, i as int)),
        decreases joined.len() - i,
    {
        out.push(settle(joined[i]));
        i = i + 1;
        assert(joined@.subrange(0, i as int) =~= joined@.subrange(0, i - 1).push(joined@[i - 1]));
    }
    assert(joined@.subrange(0, i as int) =~= joined@);
    out
}

/// A failed launch of one probe unit is recorded as a failed probe for that
/// host alone: the outcomes of all other hosts of the round stay as they were.
pub proof fn lemma_launch_failure_isolated(
    joined: Seq<Option<ProbeOutcome>>,
    i: int,
)
    requires
        0 <= i < joined.len(),
    ensures
        round_outcomes(joined.update(i, None))[i] == ProbeOutcome::ProbeFailed,
        round_outcomes(joined.update(i, None)).len() == joined.len(),
        forall|j: int|
            0 <= j < joined.len() && j != i ==> #[trigger] round_outcomes(joined.update(i, None))[j]
                == round_outcomes(joined)[j],
{
}

impl ProbeOutcome {
    pub fn label(&self) -> (r: StatusLabel)
        ensures
            r == label_of(*self),
    {
        match self {
            ProbeOutcome::Reachable => StatusLabel::Up,
            ProbeOutcome::Unreachable => StatusLabel::Down,
            ProbeOutcome::Unresolvable => StatusLabel::Unresolvable,
            ProbeOutcome::ProbeFailed => StatusLabel::ThreadError,
        }
    }
}

impl StatusLabel {
    /// The label as it is written to the log.
    pub fn text(&self) -> (r: String)
        ensures
            r@ == label_text(*self),
    {
        match self {
            StatusLabel::Up => {
                proof { reveal_strlit("UP"); }
                "UP".to_owned()
            },
            StatusLabel::Down => {
                proof { reveal_strlit("DOWN"); }
                "DOWN".to_owned()
            },
            StatusLabel::Unresolvable => {
                proof { reveal_strlit("UNRESOLVABLE"); }
                "UNRESOLVABLE".to_owned()
            },
            StatusLabel::ThreadError => {
                proof { reveal_strlit("THREAD_ERROR"); }
                "THREAD_ERROR".to_owned()
            },
        }
    }
}

} // verus!
