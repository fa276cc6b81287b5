//! Reading many secrets at once: those that exist are answered in the order of their names, the
//! others are left out.

use vstd::prelude::*;
use crate::api_error::ApiResult;
use crate::cursor::Cursor;
use crate::dto::SecretValue;
use crate::payload::Fields;
use crate::service::{batch_refusal, check_batch, get_secret, tells_value};
use crate::store::engine::{current_of, read_current_version};
use crate::store::model::{SecretRecord, VersionRecord};
use crate::store::tables::{StoreView, Tables};
use crate::text::views;

verus! {

/// A read of many secrets: the names, how many of them are done, and the answers so far.
pub struct Batch {
    names: Cursor<String>,
    answers: Vec<SecretValue>,
}

/// What a read of many secrets does next.
pub enum BatchStep {
    Done,
    Missing { name: String },
    Open { name: String, secret: SecretRecord, version: VersionRecord },
}

/// The names among the first `n` that a read of them answers.
pub open spec fn answered(state: StoreView, names: Seq<Seq<char>>, n: int) -> Seq<Seq<char>>
    decreases n,
{
    if n <= 0 {
        Seq::empty()
    } else if current_of(state, names[n - 1]) is Some {
        answered(state, names, n - 1).push(names[n - 1])
    } else {
        answered(state, names, n - 1)
    }
}

/// The names that answers tell.
pub open spec fn names_told(answers: Seq<SecretValue>) -> Seq<Seq<char>> {
    answers.map_values(|answer: SecretValue| answer.name@)
}

pub fn get_secrets(names: Vec<String>) -> (r: ApiResult<Batch>)
    ensures
        match batch_refusal(names@.len()) {
            None => {
                &&& r matches Ok(batch)
                &&& batch.names() == views(names@)
                &&& batch.done() == 0
                &&& batch.answers().len() == 0
                &&& forall|state: StoreView| #[trigger] batch.follows(state)
            },
            Some(error) => r matches Err(e) && e@ == error,
        },
{
    match check_batch(&names) {
        Ok(_) => {
            let answers: Vec<SecretValue> = Vec::new();
            assert(names_told(answers@) =~= Seq::empty());
            Ok(Batch { names: Cursor::new(names), answers })
        },
        Err(error) => Err(error),
    }
}

impl Batch {
    /// The names that are asked for.
    pub closed spec fn names(self) -> Seq<Seq<char>> {
        views(self.names.items())
    }

    /// How many of the names are done.
    pub closed spec fn done(self) -> int {
        self.names.done()
    }

    /// The answers so far.
    pub closed spec fn answers(self) -> Seq<SecretValue> {
        self.answers@
    }

    /// Whether the names answered so far are those of the names done that a state has a current
    /// version of.
    pub open spec fn follows(self, state: StoreView) -> bool {
        names_told(self.answers()) == answered(state, self.names(), self.done())
    }

    /// The next step: the secret to open, or that there is none of the next name.
    pub fn step(&self, tables: &Tables) -> (r: BatchStep)
        ensures
            0 <= self.done() <= self.names().len(),
            if self.done() == self.names().len() {
                r is Done
            } else {
                let next = self.names()[self.done()];
                match current_of(tables@, next) {
                    None => r matches BatchStep::Missing { name } && name@ == next,
                    Some((secret, version)) => r matches BatchStep::Open {
                        name,
                        secret: s,
                        version: v,
                    } && name@ == next && s@ == secret && v@ == version,
                }
            },
    {
        let name = match self.names.current() {
            Some(name) => name.clone(),
            None => return BatchStep::Done,
        };
        match read_current_version(tables, &name) {
            Some((secret, version)) => BatchStep::Open { name, secret, version },
            None => BatchStep::Missing { name },
        }
    }

    /// Leaves the next name out, if one is left.
    pub fn pass(&mut self)
        ensures
            final(self).names() == old(self).names(),
            final(self).answers() == old(self).answers(),
            final(self).done() == if old(self).done() < old(self).names().len() {
                old(self).done() + 1
            } else {
                old(self).done()
            },
            forall|state: StoreView| #[trigger]
                old(self).follows(state) && (old(self).done() < old(self).names().len()
                    ==> current_of(state, old(self).names()[old(self).done()]) is None)
                    ==> final(self).follows(state),
    {
        self.names.advance();
    }

    /// Answers the next name, if one is left, with the opened fields of its current version.
    pub fn answer(&mut self, secret: &SecretRecord, version: &VersionRecord, fields: Fields)
        ensures
            final(self).names() == old(self).names(),
            if old(self).done() < old(self).names().len() {
                &&& final(self).done() == old(self).done() + 1
                &&& final(self).answers().len() == old(self).answers().len() + 1
                &&& final(self).answers().drop_last() == old(self).answers()
                &&& tells_value(
                    final(self).answers().last(),
                    old(self).names()[old(self).done()],
                    *secret,
                    *version,
                    fields,
                )
            } else {
                final(self).done() == old(self).done() && final(self).answers()
                    == old(self).answers()
            },
            forall|state: StoreView| #[trigger]
                old(self).follows(state) && (old(self).done() < old(self).names().len()
                    ==> current_of(state, old(self).names()[old(self).done()]) is Some)
                    ==> final(self).follows(state),
    {
        let ghost before = self.answers@;
        if let Some(name) = self.names.current() {
            let value = get_secret(name.as_str(), secret, version, fields);
            self.answers.push(value);
            self.names.advance();
            assert(self.answers@.drop_last() =~= before);
            assert(names_told(self.answers@) =~= names_told(before).push(value.name@));
        }
    }

    /// The answers.
    pub fn into_answers(self) -> (r: Vec<SecretValue>)
        ensures
            r@ == self.answers(),
    {
        self.answers
    }
}

/// A read of many secrets answers exactly the names that have a current version, and answers a
/// name as often as it is asked for.
pub proof fn law_batch_answers_those_found(state: StoreView, names: Seq<Seq<char>>)
    ensures
        answered(state, names, names.len() as int) == names.filter(
            |name: Seq<char>| current_of(state, name) is Some,
        ),
    decreases names.len(),
{
    let found = |name: Seq<char>| current_of(state, name) is Some;
    reveal(Seq::filter);
    if names.len() > 0 {
        let front = names.drop_last();
        law_batch_answers_those_found(state, front);
        lemma_answered_prefix(state, names, front, front.len() as int);
    } else {
        assert(names.filter(found) =~= Seq::empty());
    }
}

/// A read of many secrets starts with no name answered, so it follows any state; where every step
/// is taken as that state says, it follows it to the end, and has then answered exactly the names
/// that the state has a current version of.
pub proof fn law_finished_batch_answers_those_found(batch: Batch, state: StoreView)
    requires
        batch.done() == batch.names().len(),
        batch.follows(state),
    ensures
        names_told(batch.answers()) == batch.names().filter(
            |name: Seq<char>| current_of(state, name) is Some,
        ),
{
    law_batch_answers_those_found(state, batch.names());
}

proof fn lemma_answered_prefix(
    state: StoreView,
    names: Seq<Seq<char>>,
    front: Seq<Seq<char>>,
    n: int,
)
    requires
        n <= front.len() <= names.len(),
        forall|i: int| 0 <= i < front.len() ==> names[i] == front[i],
    ensures
        answered(state, names, n) == answered(state, front, n),
    decreases n,
{
    if n > 0 {
        lemma_answered_prefix(state, names, front, n - 1);
    }
}

} // verus!
