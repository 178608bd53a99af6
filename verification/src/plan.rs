//! Plans: the outside steps that an operation takes, in order.
//!
//! A plan is worked off from the first step to the last. A step that fails ends the plan, is
//! reported, or is passed over, as the step itself says.
use vstd::prelude::*;

use crate::text;

verus! {

/// What a step does with its arguments.
#[derive(Clone, Copy, PartialEq, Eq, Structural, Debug)]
pub enum Verb {
    /// Print a line to standard output.
    Say,
    /// Print a line to standard error.
    Complain,
    /// Stop with an error.
    Fail,
    /// Run `limactl` on the terminal.
    Limactl,
    /// Run `limactl` without output.
    LimactlCapture,
    /// Start `limactl` in the background.
    LimactlSpawn,
    /// Run a script in a VM: its name, then the script.
    Script,
    /// Run a script in a VM without its standard output.
    ScriptQuiet,
    /// Run `ssh` on the terminal.
    Ssh,
    /// Run `ssh` without output.
    SshQuiet,
    /// Run `git` in a directory without output: the directory, then the arguments.
    Git,
    /// Run `git` in a directory on the terminal.
    GitShown,
    /// Run `xcrun`.
    Xcrun,
    /// Run `brew` on the terminal.
    Brew,
    /// Run `brew` without output.
    BrewCapture,
    /// Run `launchctl`.
    Launchctl,
    /// Write a file: its path, then its contents.
    Write,
    /// Remove a file.
    Remove,
    /// Remove a file unless it is already gone.
    RemoveManaged,
}

/// What becomes of a plan when a step fails.
#[derive(Clone, Copy, PartialEq, Eq, Structural, Debug)]
pub enum OnFail {
    /// The plan ends with the step's own error.
    Abort,
    /// The plan ends with the step's note as its error.
    AbortWith,
    /// The plan ends with the note, a colon and the step's own error.
    AbortAs,
    /// The note, a colon and the error go to standard error, and the plan goes on.
    Warn,
    /// The note goes to standard error, and the plan goes on.
    WarnWith,
    /// The plan goes on.
    Ignore,
}

pub struct Step {
    pub verb: Verb,
    pub args: Vec<String>,
    pub on_fail: OnFail,
    pub note: String,
    /// A line for standard output when the step succeeds; empty for none.
    pub done: String,
}

/// A step with its texts as sequences of characters.
pub struct StepView {
    pub verb: Verb,
    pub args: Seq<Seq<char>>,
    pub on_fail: OnFail,
    pub note: Seq<char>,
    pub done: Seq<char>,
}

impl View for Step {
    type V = StepView;

    open spec fn view(&self) -> StepView {
        StepView {
            verb: self.verb,
            args: text::texts(self.args@),
            on_fail: self.on_fail,
            note: self.note@,
            done: self.done@,
        }
    }
}

pub open spec fn steps(p: Seq<Step>) -> Seq<StepView> {
    Seq::new(p.len(), |i: int| p[i]@)
}

/// A step that ends the plan with its own error when it fails.
pub open spec fn does(verb: Verb, args: Seq<Seq<char>>) -> StepView {
    StepView { verb, args, on_fail: OnFail::Abort, note: Seq::empty(), done: Seq::empty() }
}

/// A step whose failure is passed over.
pub open spec fn tries(verb: Verb, args: Seq<Seq<char>>) -> StepView {
    StepView { verb, args, on_fail: OnFail::Ignore, note: Seq::empty(), done: Seq::empty() }
}

pub open spec fn noted(
    verb: Verb,
    args: Seq<Seq<char>>,
    on_fail: OnFail,
    note: Seq<char>,
) -> StepView {
    StepView { verb, args, on_fail, note, done: Seq::empty() }
}

/// A step that announces its success.
pub open spec fn announced(s: StepView, line: Seq<char>) -> StepView {
    StepView { done: line, ..s }
}

pub open spec fn says(line: Seq<char>) -> StepView {
    does(Verb::Say, seq![line])
}

pub open spec fn complains(line: Seq<char>) -> StepView {
    does(Verb::Complain, seq![line])
}

pub open spec fn fails(message: Seq<char>) -> StepView {
    does(Verb::Fail, seq![message])
}

/// The error text of a failed step, if it ends the plan.
pub open spec fn failure_of(s: StepView, detail: Seq<char>) -> Option<Seq<char>> {
    match s.on_fail {
        OnFail::Abort => Some(detail),
        OnFail::AbortWith => Some(s.note),
        OnFail::AbortAs => Some(s.note + ": "@ + detail),
        OnFail::Warn => None,
        OnFail::WarnWith => None,
        OnFail::Ignore => None,
    }
}

/// The line that a failed step leaves on standard error, if it does not end the plan.
pub open spec fn warning_of(s: StepView, detail: Seq<char>) -> Option<Seq<char>> {
    match s.on_fail {
        OnFail::Warn => Some(s.note + ": "@ + detail),
        OnFail::WarnWith => Some(s.note),
        _ => None,
    }
}

impl Step {
    pub fn failure(&self, detail: &str) -> (r: Option<String>)
        ensures
            r is Some == failure_of(self@, detail@) is Some,
            r matches Some(m) ==> failure_of(self@, detail@) == Some(m@),
    {
        match self.on_fail {
            OnFail::Abort => Some(detail.to_owned()),
            OnFail::AbortWith => Some(self.note.clone()),
            OnFail::AbortAs => Some(self.note.clone().concat(": ").concat(detail)),
            OnFail::Warn => None,
            OnFail::WarnWith => None,
            OnFail::Ignore => None,
        }
    }

    pub fn warning(&self, detail: &str) -> (r: Option<String>)
        ensures
            r is Some == warning_of(self@, detail@) is Some,
            r matches Some(m) ==> warning_of(self@, detail@) == Some(m@),
    {
        match self.on_fail {
            OnFail::Warn => Some(self.note.clone().concat(": ").concat(detail)),
            OnFail::WarnWith => Some(self.note.clone()),
            _ => None,
        }
    }
}

/// What follows a step.
pub enum After {
    /// The plan goes on, with a line for standard output and one for standard error, if any.
    Continue(Option<String>, Option<String>),
    /// The plan ends with an error.
    Stop(String),
}

/// What follows a step, given its error if it failed.
pub fn after(s: &Step, error: Option<&str>) -> (r: After)
    ensures
        match error {
            None => r matches After::Continue(out, err) && {
                &&& out is Some == (s@.done.len() > 0)
                &&& out matches Some(l) ==> l@ == s@.done
                &&& err is None
            },
            Some(e) => match failure_of(s@, e@) {
                Some(m) => r matches After::Stop(x) && x@ == m,
                None => r matches After::Continue(out, err) && {
                    &&& out is None
                    &&& err is Some == warning_of(s@, e@) is Some
                    &&& err matches Some(w) ==> warning_of(s@, e@) == Some(w@)
                },
            },
        },
{
    match error {
        None => {
            if s.done.as_str().is_empty() {
                After::Continue(None, None)
            } else {
                After::Continue(Some(s.done.clone()), None)
            }
        },
        Some(e) => match s.failure(e) {
            Some(m) => After::Stop(m),
            None => After::Continue(None, s.warning(e)),
        },
    }
}

// ---------------------------------------------------------------------------
// Runs of a plan
// ---------------------------------------------------------------------------

/// A failed step ends its plan or is told or passed over, as the step says: with its own error, with
/// a fixed one, or with both.
pub proof fn lemma_failure(s: StepView, e: Seq<char>)
    ensures
        s.on_fail == OnFail::Abort ==> failure_of(s, e) == Some(e) && warning_of(s, e) is None,
        s.on_fail == OnFail::AbortWith ==> failure_of(s, e) == Some(s.note) && warning_of(
            s,
            e,
        ) is None,
        s.on_fail == OnFail::AbortAs ==> failure_of(s, e) == Some(s.note + ": "@ + e)
            && warning_of(s, e) is None,
        s.on_fail == OnFail::Warn ==> failure_of(s, e) is None && warning_of(s, e) == Some(
            s.note + ": "@ + e,
        ),
        s.on_fail == OnFail::WarnWith ==> failure_of(s, e) is None && warning_of(s, e) == Some(
            s.note,
        ),
        s.on_fail == OnFail::Ignore ==> failure_of(s, e) is None && warning_of(s, e) is None,
{
}

/// Whether a step ends the plan, given its error if it failed.
pub open spec fn ends_plan(s: StepView, error: Option<Seq<char>>) -> bool {
    match error {
        Some(e) => failure_of(s, e) is Some,
        None => false,
    }
}

/// Whether errors, one for each step that would fail, can be those of a plan: a step that only
/// prints does not fail, and one that stands for an error fails with it.
pub open spec fn possible(p: Seq<StepView>, errors: Seq<Option<Seq<char>>>) -> bool {
    &&& errors.len() == p.len()
    &&& forall|i: int|
        #![trigger p[i]]
        0 <= i < p.len() ==> match p[i].verb {
            Verb::Say => errors[i] is None,
            Verb::Complain => errors[i] is None,
            Verb::Fail => errors[i] == Some(p[i].args[0]),
            _ => true,
        }
}

/// How many steps of a plan are performed.
pub open spec fn performed(p: Seq<StepView>, errors: Seq<Option<Seq<char>>>) -> nat
    decreases p.len(),
{
    if p.len() == 0 {
        0
    } else if ends_plan(p[0], errors[0]) {
        1
    } else {
        1 + performed(p.skip(1), errors.skip(1))
    }
}

/// How a plan ends.
pub open spec fn outcome(p: Seq<StepView>, errors: Seq<Option<Seq<char>>>) -> Result<
    (),
    Seq<char>,
>
    decreases p.len(),
{
    if p.len() == 0 {
        Ok(())
    } else if ends_plan(p[0], errors[0]) {
        Err(failure_of(p[0], errors[0]->0)->0)
    } else {
        outcome(p.skip(1), errors.skip(1))
    }
}

/// A step that ends the plan is the last one performed, unless an earlier step ended it; in any
/// case the plan fails, and no step behind it is performed.
pub proof fn lemma_plan_ends_at(p: Seq<StepView>, errors: Seq<Option<Seq<char>>>, i: int)
    requires
        errors.len() == p.len(),
        0 <= i < p.len(),
        ends_plan(p[i], errors[i]),
    ensures
        performed(p, errors) <= i + 1,
        outcome(p, errors) is Err,
        (forall|j: int| 0 <= j < i ==> !ends_plan(#[trigger] p[j], errors[j])) ==> performed(
            p,
            errors,
        ) == i + 1 && outcome(p, errors) == Err::<(), Seq<char>>(
            failure_of(p[i], errors[i]->0)->0,
        ),
    decreases p.len(),
{
    if i > 0 && !ends_plan(p[0], errors[0]) {
        let q = p.skip(1);
        let f = errors.skip(1);
        assert(q[i - 1] == p[i] && f[i - 1] == errors[i]);
        lemma_plan_ends_at(q, f, i - 1);
        if forall|j: int| 0 <= j < i ==> !ends_plan(#[trigger] p[j], errors[j]) {
            assert forall|j: int| 0 <= j < i - 1 implies !ends_plan(#[trigger] q[j], f[j]) by {
                assert(q[j] == p[j + 1]);
            }
        }
    }
}

/// A plan that no step ends is performed to its last step and succeeds.
pub proof fn lemma_plan_runs_through(p: Seq<StepView>, errors: Seq<Option<Seq<char>>>)
    requires
        errors.len() == p.len(),
        forall|j: int| 0 <= j < p.len() ==> !ends_plan(#[trigger] p[j], errors[j]),
    ensures
        performed(p, errors) == p.len(),
        outcome(p, errors) is Ok,
    decreases p.len(),
{
    if p.len() > 0 {
        let q = p.skip(1);
        let f = errors.skip(1);
        assert(!ends_plan(p[0], errors[0]));
        assert forall|j: int| 0 <= j < q.len() implies !ends_plan(#[trigger] q[j], f[j]) by {
            assert(q[j] == p[j + 1]);
        }
        lemma_plan_runs_through(q, f);
    }
}

// ---------------------------------------------------------------------------
// Building plans
// ---------------------------------------------------------------------------

pub fn must(verb: Verb, args: Vec<String>) -> (r: Step)
    ensures
        r@ == does(verb, text::texts(args@)),
{
    Step { verb, args, on_fail: OnFail::Abort, note: text::empty(), done: text::empty() }
}

pub fn attempt(verb: Verb, args: Vec<String>) -> (r: Step)
    ensures
        r@ == tries(verb, text::texts(args@)),
{
    Step { verb, args, on_fail: OnFail::Ignore, note: text::empty(), done: text::empty() }
}

pub fn with_note(verb: Verb, args: Vec<String>, on_fail: OnFail, note: &str) -> (r: Step)
    ensures
        r@ == noted(verb, text::texts(args@), on_fail, note@),
{
    Step { verb, args, on_fail, note: note.to_owned(), done: text::empty() }
}

pub fn announce(s: Step, line: &str) -> (r: Step)
    ensures
        r@ == announced(s@, line@),
{
    Step {
        verb: s.verb,
        args: s.args,
        on_fail: s.on_fail,
        note: s.note,
        done: line.to_owned(),
    }
}

pub fn say(line: &str) -> (r: Step)
    ensures
        r@ == says(line@),
{
    must(Verb::Say, args1(line))
}

pub fn complain(line: &str) -> (r: Step)
    ensures
        r@ == complains(line@),
{
    must(Verb::Complain, args1(line))
}

pub fn fail(message: &str) -> (r: Step)
    ensures
        r@ == fails(message@),
{
    must(Verb::Fail, args1(message))
}

pub fn push(p: &mut Vec<Step>, s: Step)
    ensures
        steps(final(p)@) == steps(old(p)@).push(s@),
{
    p.push(s);
    assert(steps(p@) =~= steps(old(p)@).push(s@));
}

pub fn append(p: &mut Vec<Step>, q: Vec<Step>)
    ensures
        steps(final(p)@) == steps(old(p)@) + steps(q@),
{
    let ghost added = q@;
    let mut q: Vec<Step> = q;
    p.append(&mut q);
    assert(steps(p@) =~= steps(old(p)@) + steps(added));
}

pub fn nothing() -> (r: Vec<Step>)
    ensures
        steps(r@) == Seq::<StepView>::empty(),
{
    let r: Vec<Step> = Vec::new();
    assert(steps(r@) =~= Seq::<StepView>::empty());
    r
}

pub fn one(s: Step) -> (r: Vec<Step>)
    ensures
        steps(r@) == seq![s@],
{
    let mut r: Vec<Step> = Vec::new();
    r.push(s);
    assert(steps(r@) =~= seq![s@]);
    r
}

pub fn args1(a: &str) -> (r: Vec<String>)
    ensures
        text::texts(r@) == seq![a@],
{
    let r: Vec<String> = vec![a.to_owned()];
    assert(text::texts(r@) =~= seq![a@]);
    r
}

pub fn args2(a: &str, b: &str) -> (r: Vec<String>)
    ensures
        text::texts(r@) == seq![a@, b@],
{
    let r: Vec<String> = vec![a.to_owned(), b.to_owned()];
    assert(text::texts(r@) =~= seq![a@, b@]);
    r
}

pub fn args3(a: &str, b: &str, c: &str) -> (r: Vec<String>)
    ensures
        text::texts(r@) == seq![a@, b@, c@],
{
    let r: Vec<String> = vec![a.to_owned(), b.to_owned(), c.to_owned()];
    assert(text::texts(r@) =~= seq![a@, b@, c@]);
    r
}

pub fn args4(a: &str, b: &str, c: &str, d: &str) -> (r: Vec<String>)
    ensures
        text::texts(r@) == seq![a@, b@, c@, d@],
{
    let r: Vec<String> = vec![a.to_owned(), b.to_owned(), c.to_owned(), d.to_owned()];
    assert(text::texts(r@) =~= seq![a@, b@, c@, d@]);
    r
}

pub fn args5(a: &str, b: &str, c: &str, d: &str, e: &str) -> (r: Vec<String>)
    ensures
        text::texts(r@) == seq![a@, b@, c@, d@, e@],
{
    let r: Vec<String> = vec![
        a.to_owned(),
        b.to_owned(),
        c.to_owned(),
        d.to_owned(),
        e.to_owned(),
    ];
    assert(text::texts(r@) =~= seq![a@, b@, c@, d@, e@]);
    r
}

} // verus!
