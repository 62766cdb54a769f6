//! Collecting agenda records by question and answer.
use vstd::prelude::*;
use vstd::string::*;
use crate::record::{entries, is_trimmed, AgendaItem, Entry};
use crate::text::{lemma_trimmed_is_fixed, trim, trimmed};

verus! {

/// A question put to the user.
#[derive(Clone, Copy, Debug, PartialEq, Eq, Structural)]
pub enum Prompt {
    Time,
    Subject,
    Presenter,
}

impl Prompt {
    /// The text of the question.
    pub fn label(&self) -> (out: &'static str)
        ensures
            out@ == match *self {
                Prompt::Time => "Time"@,
                Prompt::Subject => "Subject"@,
                Prompt::Presenter => "Presenter"@,
            },
    {
        match self {
            Prompt::Time => "Time",
            Prompt::Subject => "Subject",
            Prompt::Presenter => "Presenter",
        }
    }

    /// The hint shown with the question.
    pub fn help(&self) -> (out: &'static str)
        ensures
            out@ == match *self {
                Prompt::Time => "Leave blank when done"@,
                Prompt::Subject => "Topic of discussion"@,
                Prompt::Presenter => "Who will present (can be left blank)"@,
            },
    {
        match self {
            Prompt::Time => "Leave blank when done",
            Prompt::Subject => "Topic of discussion",
            Prompt::Presenter => "Who will present (can be left blank)",
        }
    }
}

/// Where a dialogue stands: what the next answer will be taken for, and the
/// answers already given for the record in the making.
pub enum Dialogue {
    /// The next answer is the time of a new record, or blank to end.
    AwaitTime,
    /// The time is held; the next answer is the subject.
    AwaitSubject { time: String },
    /// Time and subject are held; the next answer is the presenter.
    AwaitPresenter { time: String, subject: String },
    /// A blank time was given: no more questions.
    Finished,
}

/// The state of a [`Dialogue`]: whether it has ended, and the trimmed
/// answers held for the record in the making (none, the time, or the time
/// and the subject).
pub struct DialogueState {
    pub finished: bool,
    pub held: Seq<Seq<char>>,
}

impl View for Dialogue {
    type V = DialogueState;

    open spec fn view(&self) -> DialogueState {
        match *self {
            Dialogue::AwaitTime => DialogueState { finished: false, held: seq![] },
            Dialogue::AwaitSubject { time } => DialogueState { finished: false, held: seq![time@] },
            Dialogue::AwaitPresenter { time, subject } => DialogueState {
                finished: false,
                held: seq![time@, subject@],
            },
            Dialogue::Finished => DialogueState { finished: true, held: seq![] },
        }
    }
}

/// The state in which a dialogue begins.
pub open spec fn start_state() -> DialogueState {
    DialogueState { finished: false, held: seq![] }
}

/// The state in which a dialogue has ended.
pub open spec fn end_state() -> DialogueState {
    DialogueState { finished: true, held: seq![] }
}

/// One answer taken: the state that follows, and the record that the answer
/// completes, if it completes one. Every answer is trimmed. A blank answer
/// to the question for the time ends the dialogue, and the answer for the
/// presenter completes a record, blank or not. Once ended, a dialogue takes
/// no more answers.
pub open spec fn step(st: DialogueState, response: Seq<char>) -> (DialogueState, Option<Entry>) {
    let answer = trimmed(response);
    if st.finished {
        (st, None)
    } else if st.held.len() == 0 {
        if answer.len() == 0 {
            (end_state(), None)
        } else {
            (DialogueState { finished: false, held: seq![answer] }, None)
        }
    } else if st.held.len() == 1 {
        (DialogueState { finished: false, held: seq![st.held[0], answer] }, None)
    } else {
        (
            start_state(),
            Some(Entry { time: st.held[0], subject: st.held[1], presenter: answer }),
        )
    }
}

/// The question that goes with a state, if the dialogue has not ended.
pub open spec fn question(st: DialogueState) -> Option<Prompt> {
    if st.finished {
        None
    } else if st.held.len() == 0 {
        Some(Prompt::Time)
    } else if st.held.len() == 1 {
        Some(Prompt::Subject)
    } else {
        Some(Prompt::Presenter)
    }
}

/// The records that a run of answers completes, in order, from state `st`.
pub open spec fn collected(st: DialogueState, responses: Seq<Seq<char>>) -> Seq<Entry>
    decreases responses.len(),
{
    if responses.len() == 0 {
        Seq::empty()
    } else {
        let (next, done) = step(st, responses[0]);
        let rest = collected(next, responses.skip(1));
        match done {
            Some(e) => seq![e] + rest,
            None => rest,
        }
    }
}

/// The texts of a run of answers.
pub open spec fn response_texts(responses: Seq<String>) -> Seq<Seq<char>> {
    responses.map_values(|r: String| r@)
}

/// The record that an optional item stands for.
pub open spec fn item_entry(item: Option<AgendaItem>) -> Option<Entry> {
    match item {
        Some(i) => Some(i@),
        None => None,
    }
}

impl Dialogue {
    /// A dialogue at its beginning: the first question is for a time.
    pub fn start() -> (out: Dialogue)
        ensures
            out@ == start_state(),
    {
        Dialogue::AwaitTime
    }

    /// The question to put next, or `None` when the dialogue has ended.
    pub fn prompt(&self) -> (out: Option<Prompt>)
        ensures
            out == question(self@),
    {
        match self {
            Dialogue::AwaitTime => Some(Prompt::Time),
            Dialogue::AwaitSubject { .. } => Some(Prompt::Subject),
            Dialogue::AwaitPresenter { .. } => Some(Prompt::Presenter),
            Dialogue::Finished => None,
        }
    }

    /// Takes the answer to the question last put. Returns the state that
    /// follows and, where the answer completes a record, that record.
    pub fn answer(self, response: &str) -> (out: (Dialogue, Option<AgendaItem>))
        ensures
            (out.0@, item_entry(out.1)) == step(self@, response@),
    {
        match self {
            Dialogue::AwaitTime => {
                let time = trim(response);
                if time.as_str().is_empty() {
                    (Dialogue::Finished, None)
                } else {
                    (Dialogue::AwaitSubject { time }, None)
                }
            },
            Dialogue::AwaitSubject { time } => {
                let subject = trim(response);
                (Dialogue::AwaitPresenter { time, subject }, None)
            },
            Dialogue::AwaitPresenter { time, subject } => {
                let presenter = trim(response);
                (Dialogue::AwaitTime, Some(AgendaItem { time, subject, presenter }))
            },
            Dialogue::Finished => (Dialogue::Finished, None),
        }
    }
}

/// Runs a dialogue from its beginning over the answers given, in order, and
/// appends each completed record to `agenda`. A blank time ends the
/// dialogue, and answers after it are not read. Where the answers run out in
/// the middle of a record, that record is not appended.
pub fn get_agenda_items_interactively(agenda: &mut Vec<AgendaItem>, responses: &Vec<String>)
    ensures
        entries(final(agenda)@) == entries(old(agenda)@) + collected(
            start_state(),
            response_texts(responses@),
        ),
        forall|i: int|
            old(agenda)@.len() <= i < final(agenda)@.len() ==> is_trimmed(
                #[trigger] final(agenda)@[i]@,
            ),
{
    let ghost texts = response_texts(responses@);
    let mut state = Dialogue::start();
    let mut i: usize = 0;
    proof {
        assert(texts.skip(0) =~= texts);
    }
    while i < responses.len()
        invariant
            i <= responses@.len(),
            texts == response_texts(responses@),
            entries(agenda@) + collected(state@, texts.skip(i as int)) == entries(old(agenda)@)
                + collected(start_state(), texts),
        decreases responses@.len() - i,
    {
        let ghost before = agenda@;
        let ghost st = state@;
        let (next, done) = state.answer(responses[i].as_str());
        state = next;
        proof {
            assert(texts.skip(i as int)[0] == responses@[i as int]@);
            assert(texts.skip(i as int).skip(1) =~= texts.skip(i + 1));
        }
        match done {
            Some(item) => {
                agenda.push(item);
                proof {
                    assert(entries(agenda@) =~= entries(before).push(item@));
                    assert(entries(before).push(item@) + collected(state@, texts.skip(i + 1))
                        =~= entries(before) + (seq![item@] + collected(
                        state@,
                        texts.skip(i + 1),
                    )));
                }
            },
            None => {},
        }
        i += 1;
    }
    proof {
        assert(entries(agenda@) + collected(state@, texts.skip(i as int)) =~= entries(agenda@));
        lemma_collected_is_trimmed(start_state(), texts);
        let base = entries(old(agenda)@);
        let added = collected(start_state(), texts);
        assert(entries(agenda@).len() == agenda@.len());
        assert(base.len() == old(agenda)@.len());
        assert forall|i: int| old(agenda)@.len() <= i < agenda@.len() implies is_trimmed(
            #[trigger] agenda@[i]@,
        ) by {
            assert(entries(agenda@)[i] == agenda@[i]@);
            assert((base + added)[i] == added[i - base.len()]);
        }
    }
}

/// Whether every answer held in the state is trimmed.
pub open spec fn holds_trimmed(st: DialogueState) -> bool {
    forall|i: int| 0 <= i < st.held.len() ==> trimmed(#[trigger] st.held[i]) == st.held[i]
}

/// Every record that a dialogue completes has trimmed fields, whatever is
/// answered.
pub proof fn lemma_collected_is_trimmed(st: DialogueState, responses: Seq<Seq<char>>)
    requires
        holds_trimmed(st),
    ensures
        forall|i: int|
            0 <= i < collected(st, responses).len() ==> is_trimmed(
                #[trigger] collected(st, responses)[i],
            ),
    decreases responses.len(),
{
    if responses.len() > 0 {
        let (next, done) = step(st, responses[0]);
        lemma_trimmed_is_fixed(responses[0]);
        assert(holds_trimmed(next));
        lemma_collected_is_trimmed(next, responses.skip(1));
        let rest = collected(next, responses.skip(1));
        match done {
            Some(e) => {
                assert(trimmed(st.held[0]) == st.held[0]);
                assert(trimmed(st.held[1]) == st.held[1]);
                assert(is_trimmed(e));
                assert forall|i: int| 0 <= i < (seq![e] + rest).len() implies is_trimmed(
                    #[trigger] (seq![e] + rest)[i],
                ) by {
                    if i > 0 {
                        assert((seq![e] + rest)[i] == rest[i - 1]);
                    }
                }
            },
            None => {},
        }
    }
}

/// The answers typed for some records, one after the other: time, subject
/// and presenter of each.
pub open spec fn transcript(answers: Seq<Entry>) -> Seq<Seq<char>>
    decreases answers.len(),
{
    if answers.len() == 0 {
        Seq::empty()
    } else {
        seq![answers[0].time, answers[0].subject, answers[0].presenter] + transcript(
            answers.skip(1),
        )
    }
}

/// A record with each of its fields trimmed.
pub open spec fn trimmed_entry(e: Entry) -> Entry {
    Entry {
        time: trimmed(e.time),
        subject: trimmed(e.subject),
        presenter: trimmed(e.presenter),
    }
}

/// An ended dialogue completes no record, whatever is answered.
pub proof fn lemma_finished_collects_nothing(responses: Seq<Seq<char>>)
    ensures
        collected(end_state(), responses) == Seq::<Entry>::empty(),
    decreases responses.len(),
{
    if responses.len() > 0 {
        lemma_finished_collects_nothing(responses.skip(1));
    }
}

/// The answers for any number of records, each with a time that is not
/// blank, followed by a blank time, give exactly those records, in the order
/// in which they were entered, with every field trimmed. What is answered
/// after the blank time changes nothing.
pub proof fn lemma_entries_then_blank(answers: Seq<Entry>, blank: Seq<char>, rest: Seq<Seq<char>>)
    requires
        forall|i: int| 0 <= i < answers.len() ==> trimmed(#[trigger] answers[i].time).len() > 0,
        trimmed(blank).len() == 0,
    ensures
        collected(start_state(), transcript(answers) + seq![blank] + rest) == answers.map_values(
            |e: Entry| trimmed_entry(e),
        ),
        collected(start_state(), transcript(answers) + seq![blank] + rest).len() == answers.len(),
    decreases answers.len(),
{
    let all = transcript(answers) + seq![blank] + rest;
    let want = answers.map_values(|e: Entry| trimmed_entry(e));
    if answers.len() == 0 {
        assert(all.skip(1) =~= rest);
        assert(all[0] == blank);
        lemma_finished_collects_nothing(rest);
        assert(collected(start_state(), all) =~= want);
    } else {
        let e = answers[0];
        let tail = transcript(answers.skip(1)) + seq![blank] + rest;
        lemma_entries_then_blank(answers.skip(1), blank, rest);
        assert(all =~= seq![e.time, e.subject, e.presenter] + tail);
        let s1 = step(start_state(), all[0]).0;
        let r1 = all.skip(1);
        assert(r1[0] == e.subject);
        let s2 = step(s1, r1[0]).0;
        let r2 = r1.skip(1);
        assert(r2[0] == e.presenter);
        assert(r2.skip(1) =~= tail);
        assert(step(s2, r2[0]) == (start_state(), Some(trimmed_entry(e))));
        assert(collected(s2, r2) == seq![trimmed_entry(e)] + collected(start_state(), tail));
        assert(collected(s1, r1) == collected(s2, r2));
        assert(collected(start_state(), all) == collected(s1, r1));
        assert(seq![trimmed_entry(e)] + answers.skip(1).map_values(|e: Entry| trimmed_entry(e))
            =~= want);
    }
}

} // verus!
