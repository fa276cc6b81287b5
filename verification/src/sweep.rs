//! A pass over all secrets that wraps the data keys of their valid versions anew.

use vstd::prelude::*;
use crate::cursor::Cursor;
use crate::rewrap::{behind_of, lemma_behind_shorter, secret_work, RewrapSummary};
use crate::store::engine::{list_values, listed, live_of};
use crate::store::model::{SecretRecord, SecretView, VersionRecord, VersionView};
use crate::store::sorting::list_view;
use crate::store::tables::{StoreView, Tables};
use crate::text::views;

verus! {

/// A pass: the secrets, the versions of the current one that are behind, and what was done so far.
pub struct RewrapPass {
    target: i64,
    now: i64,
    names: Cursor<String>,
    name: String,
    work: Cursor<VersionRecord>,
    summary: RewrapSummary,
}

/// A pass: the secrets that are not looked at yet, the current one, its versions that are still to
/// be wrapped anew, and what was done so far.
pub struct PassView {
    pub target: i64,
    pub now: i64,
    pub left: Seq<Seq<char>>,
    pub name: Seq<char>,
    pub work: Seq<VersionView>,
    pub summary: RewrapSummary,
}

/// What a pass does next.
pub enum PassAction {
    Load { name: String },
    Rewrap { name: String, version: VersionRecord },
    Finish { summary: RewrapSummary },
}

pub enum PassActionView {
    Load { name: Seq<char> },
    Rewrap { name: Seq<char>, version: VersionView },
    Finish { summary: RewrapSummary },
}

impl View for PassAction {
    type V = PassActionView;

    open spec fn view(&self) -> PassActionView {
        match self {
            PassAction::Load { name } => PassActionView::Load { name: name@ },
            PassAction::Rewrap { name, version } => PassActionView::Rewrap {
                name: name@,
                version: version@,
            },
            PassAction::Finish { summary } => PassActionView::Finish { summary: *summary },
        }
    }
}

impl View for RewrapPass {
    type V = PassView;

    closed spec fn view(&self) -> PassView {
        PassView {
            target: self.target,
            now: self.now,
            left: views(self.names.items()).skip(self.names.done()),
            name: self.name@,
            work: list_view(self.work.items()).skip(self.work.done()),
            summary: self.summary,
        }
    }
}

/// How a pass starts: with every secret, in the order in which they are listed.
pub open spec fn first_pass(state: StoreView, target: i64, now: i64) -> PassView {
    PassView {
        target,
        now,
        left: listed::<String, SecretRecord>(state.secrets).map_values(
            |secret: SecretView| secret.name,
        ),
        name: Seq::empty(),
        work: Seq::empty(),
        summary: RewrapSummary { scanned: 0, rewrapped: 0, failed: 0 },
    }
}

/// What a pass does next: it wraps the versions of the current secret anew, then takes the next
/// secret.
pub open spec fn pass_action(pass: PassView) -> PassActionView {
    if pass.work.len() > 0 {
        PassActionView::Rewrap { name: pass.name, version: pass.work[0] }
    } else if pass.left.len() > 0 {
        PassActionView::Load { name: pass.left[0] }
    } else {
        PassActionView::Finish { summary: pass.summary }
    }
}

/// How many versions a pass has looked at once it has taken the next secret.
pub open spec fn scanned_after(pass: PassView, state: StoreView) -> int {
    pass.summary.scanned + live_of(state, pass.left[0], pass.now as int).len()
}

/// Where taking the next secret leaves a pass.
pub open spec fn after_load(pass: PassView, state: StoreView) -> PassView {
    if pass_action(pass) is Load {
        PassView {
            left: pass.left.skip(1),
            name: pass.left[0],
            work: behind_of(live_of(state, pass.left[0], pass.now as int), pass.target),
            summary: RewrapSummary {
                scanned: scanned_after(pass, state) as usize,
                ..pass.summary
            },
            ..pass
        }
    } else {
        pass
    }
}

/// Where wrapping a version anew, or failing to, leaves a pass: either way the version is done.
pub open spec fn after_rewrap(pass: PassView, done: bool) -> PassView {
    if pass_action(pass) is Rewrap {
        PassView {
            work: pass.work.skip(1),
            summary: if done {
                RewrapSummary { rewrapped: (pass.summary.rewrapped + 1) as usize, ..pass.summary }
            } else {
                RewrapSummary { failed: (pass.summary.failed + 1) as usize, ..pass.summary }
            },
            ..pass
        }
    } else {
        pass
    }
}

impl RewrapPass {
    #[verifier::type_invariant]
    spec fn counted(self) -> bool {
        &&& 0 <= self.work.done() <= self.work.items().len()
        &&& self.summary.rewrapped + self.summary.failed + self.work.items().len()
            - self.work.done() <= self.summary.scanned
    }

    /// Starts a pass.
    pub fn begin(tables: &Tables, target: i64, now: i64) -> (r: RewrapPass)
        ensures
            r@ == first_pass(tables@, target, now),
    {
        let secrets = list_values(&tables.secrets);
        let ghost all = list_view(secrets@);
        let mut names: Vec<String> = Vec::new();
        let mut i: usize = 0;
        while i < secrets.len()
            invariant
                i <= secrets@.len() == all.len(),
                all == list_view(secrets@),
                names@.len() == i,
                forall|j: int| 0 <= j < i ==> (#[trigger] names@[j])@ == all[j].name,
            decreases secrets@.len() - i,
        {
            names.push(secrets[i].name.clone());
            i = i + 1;
        }
        assert(views(names@).skip(0) =~= all.map_values(|secret: SecretView| secret.name));
        let work: Vec<VersionRecord> = Vec::new();
        assert(list_view(work@).skip(0) =~= Seq::empty());
        let name = String::new();
        assert(name@ =~= Seq::empty());
        RewrapPass {
            target,
            now,
            names: Cursor::new(names),
            name,
            work: Cursor::new(work),
            summary: RewrapSummary::default(),
        }
    }

    /// What to do next.
    pub fn action(&self) -> (r: PassAction)
        ensures
            r@ == pass_action(self@),
    {
        if let Some(version) = self.work.current() {
            return PassAction::Rewrap { name: self.name.clone(), version: version.clone() };
        }
        match self.names.current() {
            Some(name) => PassAction::Load { name: name.clone() },
            None => PassAction::Finish { summary: self.summary },
        }
    }

    /// Takes the next secret, if the pass is at one; nothing where there are more versions than
    /// can be counted.
    pub fn load(self, tables: &Tables) -> (r: Option<RewrapPass>)
        ensures
            match r {
                Some(pass) => pass@ == after_load(self@, tables@),
                None => pass_action(self@) is Load && scanned_after(self@, tables@) > usize::MAX,
            },
    {
        proof {
            use_type_invariant(&self);
        }
        let ghost before = self@;
        if self.work.current().is_some() {
            return Some(self);
        }
        let name = match self.names.current() {
            Some(name) => name.clone(),
            None => return Some(self),
        };
        let (work, seen) = secret_work(tables, &name, self.target, self.now);
        proof {
            lemma_behind_shorter(live_of(tables@, name@, self.now as int), self.target);
            assert(list_view(work@).skip(0) =~= list_view(work@));
        }
        if seen > usize::MAX - self.summary.scanned {
            return None;
        }
        let mut names = self.names;
        let mut summary = self.summary;
        names.advance();
        summary.scan(seen);
        assert(before.left.skip(1) =~= views(names.items()).skip(names.done()));
        Some(
            RewrapPass {
                target: self.target,
                now: self.now,
                names,
                name,
                work: Cursor::new(work),
                summary,
            },
        )
    }

    /// Goes on after a version, whether it was wrapped anew or not.
    pub fn note(self, done: bool) -> (r: RewrapPass)
        ensures
            r@ == after_rewrap(self@, done),
    {
        proof {
            use_type_invariant(&self);
        }
        let ghost before = self@;
        if self.work.current().is_none() {
            return self;
        }
        let mut work = self.work;
        let mut summary = self.summary;
        work.advance();
        summary.note(done);
        assert(before.work.skip(1) =~= list_view(work.items()).skip(work.done()));
        RewrapPass {
            target: self.target,
            now: self.now,
            names: self.names,
            name: self.name,
            work,
            summary,
        }
    }
}

/// Where wrapping versions anew with the given outcomes leaves a pass.
pub open spec fn after_rewraps(pass: PassView, outcomes: Seq<bool>) -> PassView
    decreases outcomes.len(),
{
    if outcomes.len() == 0 {
        pass
    } else {
        after_rewrap(after_rewraps(pass, outcomes.drop_last()), outcomes.last())
    }
}

/// How many of the outcomes are the given one.
pub open spec fn count_of(outcomes: Seq<bool>, wanted: bool) -> nat
    decreases outcomes.len(),
{
    if outcomes.len() == 0 {
        0
    } else if outcomes.last() == wanted {
        count_of(outcomes.drop_last(), wanted) + 1
    } else {
        count_of(outcomes.drop_last(), wanted)
    }
}

/// A version that fails stops nothing: the pass takes every version of the secret that is behind,
/// once and in turn, then goes on to the next secret, and counts what was done and what failed.
pub proof fn law_failed_versions_stop_nothing(pass: PassView, outcomes: Seq<bool>)
    requires
        outcomes.len() <= pass.work.len(),
        pass.summary.rewrapped + pass.summary.failed + pass.work.len() <= usize::MAX,
    ensures
        ({
            let after = after_rewraps(pass, outcomes);
            &&& pass_action(after) == if outcomes.len() < pass.work.len() {
                PassActionView::Rewrap {
                    name: pass.name,
                    version: pass.work[outcomes.len() as int],
                }
            } else if pass.left.len() > 0 {
                PassActionView::Load { name: pass.left[0] }
            } else {
                PassActionView::Finish { summary: after.summary }
            }
            &&& after.left == pass.left
            &&& after.summary.scanned == pass.summary.scanned
            &&& after.summary.rewrapped == pass.summary.rewrapped + count_of(outcomes, true)
            &&& after.summary.failed == pass.summary.failed + count_of(outcomes, false)
        }),
{
    lemma_work_left(pass, outcomes);
}

proof fn lemma_work_left(pass: PassView, outcomes: Seq<bool>)
    requires
        outcomes.len() <= pass.work.len(),
        pass.summary.rewrapped + pass.summary.failed + pass.work.len() <= usize::MAX,
    ensures
        ({
            let after = after_rewraps(pass, outcomes);
            &&& after.work == pass.work.skip(outcomes.len() as int)
            &&& after.left == pass.left
            &&& after.name == pass.name
            &&& after.summary.scanned == pass.summary.scanned
            &&& after.summary.rewrapped == pass.summary.rewrapped + count_of(outcomes, true)
            &&& after.summary.failed == pass.summary.failed + count_of(outcomes, false)
        }),
        count_of(outcomes, true) + count_of(outcomes, false) == outcomes.len(),
    decreases outcomes.len(),
{
    if outcomes.len() > 0 {
        let done = outcomes.len() - 1;
        lemma_work_left(pass, outcomes.drop_last());
        assert(pass.work.skip(done).skip(1) =~= pass.work.skip(done + 1));
    } else {
        assert(pass.work.skip(0) =~= pass.work);
    }
}

/// A pass without work takes the secrets in turn, whatever their versions.
pub proof fn law_loading_takes_secrets_in_turn(pass: PassView, state: StoreView)
    requires
        pass.work.len() == 0,
        pass.left.len() > 0,
    ensures
        pass_action(pass) == (PassActionView::Load { name: pass.left[0] }),
        after_load(pass, state).left == pass.left.skip(1),
        after_load(pass, state).name == pass.left[0],
        after_load(pass, state).work == behind_of(
            live_of(state, pass.left[0], pass.now as int),
            pass.target,
        ),
{
}

} // verus!
