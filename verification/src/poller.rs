//! Change detection: which looks at the clipboard become history entries.

use vstd::prelude::*;
use crate::history::ClipboardHistory;
use crate::store::{insert_statement, insert_statement_text};

verus! {

/// The time from one look at the clipboard to the next, in milliseconds.
pub const POLL_INTERVAL_MILLIS: u64 = 250;

/// Whether a look at the clipboard is a change against the value seen last:
/// the read succeeded and gave a different text. A failed read is never a
/// change, and the empty text is a value like any other.
pub open spec fn is_change(last_seen: Seq<char>, reading: Option<Seq<char>>) -> bool {
    reading matches Some(text) && text != last_seen
}

/// The value seen last once `reading` has been looked at: the text of a
/// successful read, the old value after a failed one.
pub open spec fn snapshot_after(last_seen: Seq<char>, reading: Option<Seq<char>>) -> Seq<char> {
    match reading {
        Some(text) => text,
        None => last_seen,
    }
}

/// The value seen last after a whole run of readings that began with
/// `start` as the value seen last.
pub open spec fn last_seen_after(start: Seq<char>, readings: Seq<Option<Seq<char>>>) -> Seq<char>
    decreases readings.len(),
{
    if readings.len() == 0 {
        start
    } else {
        snapshot_after(last_seen_after(start, readings.drop_last()), readings.last())
    }
}

/// The entries that a run of readings leaves in the history, oldest first:
/// each reading that was a change when it was looked at.
pub open spec fn recorded(start: Seq<char>, readings: Seq<Option<Seq<char>>>) -> Seq<Seq<char>>
    decreases readings.len(),
{
    if readings.len() == 0 {
        Seq::empty()
    } else {
        let earlier = readings.drop_last();
        if is_change(last_seen_after(start, earlier), readings.last()) {
            recorded(start, earlier).push(readings.last()->0)
        } else {
            recorded(start, earlier)
        }
    }
}

/// A run can be cut anywhere: the second part goes on from the value that
/// the first part saw last, and the entries of the two parts, one after the
/// other, are the entries of the whole run.
pub proof fn law_run_can_be_cut(
    start: Seq<char>,
    earlier: Seq<Option<Seq<char>>>,
    later: Seq<Option<Seq<char>>>,
)
    ensures
        last_seen_after(start, earlier + later) == last_seen_after(
            last_seen_after(start, earlier),
            later,
        ),
        recorded(start, earlier + later) == recorded(start, earlier) + recorded(
            last_seen_after(start, earlier),
            later,
        ),
    decreases later.len(),
{
    if later.len() == 0 {
        assert(earlier + later =~= earlier);
    } else {
        law_run_can_be_cut(start, earlier, later.drop_last());
        assert((earlier + later).drop_last() =~= earlier + later.drop_last());
    }
}

/// The same text read any number of times in a row leaves one entry, and
/// none where it is the value that was seen last before the first of them.
pub proof fn law_repeated_text_recorded_once(start: Seq<char>, text: Seq<char>, times: nat)
    ensures
        recorded(start, Seq::new(times, |i: int| Some(text))) == (if times > 0 && text != start {
            seq![text]
        } else {
            Seq::<Seq<char>>::empty()
        }),
        last_seen_after(start, Seq::new(times, |i: int| Some(text))) == (if times > 0 {
            text
        } else {
            start
        }),
    decreases times,
{
    let readings = Seq::new(times, |i: int| Some(text));
    if times > 0 {
        let fewer = (times - 1) as nat;
        law_repeated_text_recorded_once(start, text, fewer);
        assert(readings.drop_last() =~= Seq::new(fewer, |i: int| Some(text)));
    }
}

/// Successful reads of which each differs from the one before it, and the
/// first from the value seen last at the start, are recorded all, in the
/// order in which they were made.
pub proof fn law_distinct_texts_recorded_in_order(start: Seq<char>, texts: Seq<Seq<char>>)
    requires
        forall|i: int|
            0 <= i < texts.len() ==> #[trigger] texts[i] != (if i == 0 {
                start
            } else {
                texts[i - 1]
            }),
    ensures
        recorded(start, Seq::new(texts.len(), |i: int| Some(texts[i]))) == texts,
        last_seen_after(start, Seq::new(texts.len(), |i: int| Some(texts[i]))) == (if texts.len()
            > 0 {
            texts.last()
        } else {
            start
        }),
    decreases texts.len(),
{
    let readings = Seq::new(texts.len(), |i: int| Some(texts[i]));
    if texts.len() > 0 {
        let fewer = texts.drop_last();
        assert forall|i: int| 0 <= i < fewer.len() implies #[trigger] fewer[i] != (if i == 0 {
            start
        } else {
            fewer[i - 1]
        }) by {
            assert(fewer[i] == texts[i]);
        }
        law_distinct_texts_recorded_in_order(start, fewer);
        assert(readings.drop_last() =~= Seq::new(fewer.len(), |i: int| Some(fewer[i])));
        assert(texts.last() == texts[texts.len() - 1]);
        assert(fewer.push(texts.last()) =~= texts);
    }
}

/// No entry repeats the one before it, and the oldest differs from the
/// value seen last at the start. The newest entry is the value seen last at
/// the end of the run; a run without entries ends as it began.
pub proof fn law_no_entry_repeats_its_predecessor(
    start: Seq<char>,
    readings: Seq<Option<Seq<char>>>,
)
    ensures
        forall|i: int|
            0 <= i < recorded(start, readings).len() ==> #[trigger] recorded(start, readings)[i]
                != (if i == 0 {
                start
            } else {
                recorded(start, readings)[i - 1]
            }),
        recorded(start, readings).len() > 0 ==> recorded(start, readings).last()
            == last_seen_after(start, readings),
        recorded(start, readings).len() == 0 ==> last_seen_after(start, readings) == start,
    decreases readings.len(),
{
    if readings.len() > 0 {
        law_no_entry_repeats_its_predecessor(start, readings.drop_last());
    }
}

/// The watcher's memory between two looks at the clipboard: the value seen
/// last, which is the empty text when the process starts.
pub struct Poller {
    last_seen: String,
    observed: Ghost<Seq<Option<Seq<char>>>>,
}

impl Poller {
    /// The value seen last.
    pub closed spec fn last_seen_text(&self) -> Seq<char> {
        self.last_seen@
    }

    /// Every reading that this poller was handed, oldest first.
    pub closed spec fn observed(&self) -> Seq<Option<Seq<char>>> {
        self.observed@
    }

    #[verifier::type_invariant]
    spec fn remembers_latest(&self) -> bool {
        self.last_seen@ == last_seen_after(Seq::empty(), self.observed@)
    }

    /// A poller that has seen nothing yet.
    pub fn new() -> (poller: Self)
        ensures
            poller.last_seen_text() == Seq::<char>::empty(),
            poller.observed() == Seq::<Option<Seq<char>>>::empty(),
    {
        Poller { last_seen: String::new(), observed: Ghost(Seq::empty()) }
    }

    /// The value seen last: the text of the latest successful read.
    pub fn last_seen(&self) -> (text: &str)
        ensures
            text@ == self.last_seen_text(),
            text@ == last_seen_after(Seq::empty(), self.observed()),
    {
        proof {
            use_type_invariant(self);
        }
        self.last_seen.as_str()
    }

    /// Takes in one look at the clipboard, made at `timestamp` (seconds since
    /// the Unix epoch). `reading` is `None` when the clipboard could not be
    /// read. On a change the text becomes the value seen last and is
    /// appended to `history`, and the statement that appends it to the
    /// store is returned. Otherwise nothing but the list of readings changes.
    pub fn poll(
        &mut self,
        history: &mut ClipboardHistory,
        reading: Option<String>,
        timestamp: u64,
    ) -> (statement: Option<String>)
        ensures
            final(self).observed() == old(self).observed().push(reading.deep_view()),
            final(self).last_seen_text() == snapshot_after(
                old(self).last_seen_text(),
                reading.deep_view(),
            ),
            is_change(old(self).last_seen_text(), reading.deep_view()) ==> final(history)@ == old(
                history,
            )@.push(reading.deep_view()->0),
            is_change(old(self).last_seen_text(), reading.deep_view()) ==> statement.deep_view()
                == Some(insert_statement_text(reading.deep_view()->0, timestamp as nat)),
            !is_change(old(self).last_seen_text(), reading.deep_view()) ==> final(history)@ == old(
                history,
            )@,
            !is_change(old(self).last_seen_text(), reading.deep_view()) ==> statement is None,
            old(history)@ == recorded(Seq::empty(), old(self).observed()) ==> final(history)@
                == recorded(Seq::empty(), final(self).observed()),
    {
        proof {
            use_type_invariant(&*self);
        }
        let ghost seen = self.observed@.push(reading.deep_view());
        assert(seen.drop_last() =~= self.observed@);
        match reading {
            Some(contents) => {
                if contents == self.last_seen {
                    self.observed = Ghost(seen);
                    None
                } else {
                    let statement = insert_statement(contents.as_str(), timestamp);
                    history.add_entry(contents.clone());
                    *self = Poller { last_seen: contents, observed: Ghost(seen) };
                    Some(statement)
                }
            },
            None => {
                self.observed = Ghost(seen);
                None
            },
        }
    }
}

} // verus!
