//! Event extraction: every non-empty line of a log file is parsed as JSON;
//! the objects are the events, any other document is set aside, and the
//! first line that is no JSON ends the run.

use crate::json::{
    error_message, error_text, into_object, json_parse, object_model, parse_value, value_model,
    Json, SerdeObject,
};
use crate::text::{split_lines, text_lines, views};
use serde_json::Value;
use vstd::prelude::*;

verus! {

/// A log file as it was found on disk: its path, and its text or the reason
/// why it could not be read.
pub struct SourceFile {
    pub path: String,
    pub contents: Result<String, String>,
}

/// What was extracted: the events in file order, then line order, and the
/// documents that were set aside because they are no objects, in the same
/// order.
pub struct Extraction {
    pub events: Vec<SerdeObject>,
    pub ignored: Vec<Value>,
}

/// The first line of a text that is no JSON, counted from zero, with the
/// parser's diagnostic, and the documents that were set aside before it.
pub struct LineFault {
    pub line: usize,
    pub message: String,
    pub ignored: Vec<Value>,
}

/// Why a file ended the extraction.
pub enum ExtractFault {
    /// The file could not be read; `cause` is the reason handed in with it.
    Unreadable { cause: String },
    /// The line `line`, counted from zero, is no JSON.
    Malformed { line: usize, message: String },
}

/// The file that ended the extraction, by its index and path, why it did,
/// and the documents that were set aside before that.
pub struct ExtractError {
    pub file: usize,
    pub path: String,
    pub fault: ExtractFault,
    pub ignored: Vec<Value>,
}

/// What becomes of one line.
pub ghost enum LineOutcome {
    /// An empty line is passed over.
    Blank,
    /// An object is an event.
    Event(Map<Seq<char>, Json>),
    /// Any other document is set aside.
    Ignored(Json),
    /// Text that is no JSON, with the parser's diagnostic.
    Fault(Seq<char>),
}

pub open spec fn line_outcome(line: Seq<char>) -> LineOutcome {
    if line.len() == 0 {
        LineOutcome::Blank
    } else {
        match json_parse(line) {
            Ok(Json::Object(entries)) => LineOutcome::Event(entries),
            Ok(doc) => LineOutcome::Ignored(doc),
            Err(message) => LineOutcome::Fault(message),
        }
    }
}

/// No line is a fault.
pub open spec fn faultless(lines: Seq<Seq<char>>) -> bool {
    forall|i: int| 0 <= i < lines.len() ==> !(#[trigger] line_outcome(lines[i]) is Fault)
}

/// Line `k` is a fault and no line before it is one.
pub open spec fn is_first_fault(lines: Seq<Seq<char>>, k: int) -> bool {
    &&& 0 <= k < lines.len()
    &&& line_outcome(lines[k]) is Fault
    &&& faultless(lines.take(k))
}

/// The events among the lines, in line order.
pub open spec fn events_of(lines: Seq<Seq<char>>) -> Seq<Map<Seq<char>, Json>>
    decreases lines.len(),
{
    if lines.len() == 0 {
        Seq::empty()
    } else {
        let before = events_of(lines.drop_last());
        match line_outcome(lines.last()) {
            LineOutcome::Event(entries) => before.push(entries),
            _ => before,
        }
    }
}

/// The documents among the lines that are no objects, in line order.
pub open spec fn ignored_of(lines: Seq<Seq<char>>) -> Seq<Json>
    decreases lines.len(),
{
    if lines.len() == 0 {
        Seq::empty()
    } else {
        let before = ignored_of(lines.drop_last());
        match line_outcome(lines.last()) {
            LineOutcome::Ignored(doc) => before.push(doc),
            _ => before,
        }
    }
}

/// The entries of each object of a sequence.
pub open spec fn object_models(objects: Seq<SerdeObject>) -> Seq<Map<Seq<char>, Json>> {
    objects.map_values(|o: SerdeObject| object_model(o))
}

/// The document of each value of a sequence.
pub open spec fn value_models(values: Seq<Value>) -> Seq<Json> {
    values.map_values(|v: Value| value_model(v))
}

/// The lines of a file; a file that could not be read has none.
pub open spec fn file_lines(file: SourceFile) -> Seq<Seq<char>> {
    match file.contents {
        Ok(text) => text_lines(text@),
        Err(_) => Seq::empty(),
    }
}

/// The file was read and none of its lines is a fault.
pub open spec fn file_sound(file: SourceFile) -> bool {
    file.contents is Ok && faultless(file_lines(file))
}

/// The lines of all files, in file order, then line order.
pub open spec fn all_lines(files: Seq<SourceFile>) -> Seq<Seq<char>>
    decreases files.len(),
{
    if files.len() == 0 {
        Seq::empty()
    } else {
        all_lines(files.drop_last()) + file_lines(files.last())
    }
}

/// The events of two runs of lines, one after the other, are the events of
/// the first followed by those of the second; so are the ignored documents.
pub proof fn lemma_outcomes_concat(a: Seq<Seq<char>>, b: Seq<Seq<char>>)
    ensures
        events_of(a + b) == events_of(a) + events_of(b),
        ignored_of(a + b) == ignored_of(a) + ignored_of(b),
    decreases b.len(),
{
    if b.len() == 0 {
        assert(a + b =~= a);
        assert(events_of(a) + events_of(b) =~= events_of(a));
        assert(ignored_of(a) + ignored_of(b) =~= ignored_of(a));
    } else {
        lemma_outcomes_concat(a, b.drop_last());
        assert((a + b).drop_last() =~= a + b.drop_last());
        assert((a + b).last() == b.last());
        assert(events_of(a + b) =~= events_of(a) + events_of(b));
        assert(ignored_of(a + b) =~= ignored_of(a) + ignored_of(b));
    }
}

/// The number of empty lines.
pub open spec fn blank_count(lines: Seq<Seq<char>>) -> nat
    decreases lines.len(),
{
    if lines.len() == 0 {
        0
    } else {
        blank_count(lines.drop_last()) + if lines.last().len() == 0 {
            1nat
        } else {
            0nat
        }
    }
}

/// Where no line is a fault, every line is an event unless it is passed
/// over: the events are as many as the lines that are neither empty nor
/// ignored.
pub proof fn lemma_event_count(lines: Seq<Seq<char>>)
    requires
        faultless(lines),
    ensures
        events_of(lines).len() + ignored_of(lines).len() + blank_count(lines) == lines.len(),
    decreases lines.len(),
{
    if lines.len() > 0 {
        let init = lines.drop_last();
        assert forall|i: int| 0 <= i < init.len() implies !(#[trigger] line_outcome(init[i])
            is Fault) by {
            assert(init[i] == lines[i]);
        }
        lemma_event_count(init);
        assert(lines[lines.len() - 1] == lines.last());
    }
}

/// Where every line that is not empty holds an object, the events are as
/// many as the lines that are not empty.
pub proof fn lemma_event_count_of_objects(lines: Seq<Seq<char>>)
    requires
        forall|i: int|
            0 <= i < lines.len() && lines[i].len() > 0 ==> #[trigger] line_outcome(lines[i])
                is Event,
    ensures
        events_of(lines).len() + blank_count(lines) == lines.len(),
        ignored_of(lines).len() == 0,
    decreases lines.len(),
{
    if lines.len() > 0 {
        let init = lines.drop_last();
        assert forall|i: int| 0 <= i < init.len() && init[i].len() > 0 implies #[trigger] line_outcome(
            init[i],
        ) is Event by {
            assert(init[i] == lines[i]);
        }
        lemma_event_count_of_objects(init);
        assert(lines[lines.len() - 1] == lines.last());
    }
}

/// A line that holds a document other than an object, wherever it stands,
/// adds no event and is no fault.
pub proof fn lemma_ignored_line_adds_no_event(
    before: Seq<Seq<char>>,
    line: Seq<char>,
    after: Seq<Seq<char>>,
)
    requires
        line_outcome(line) is Ignored,
    ensures
        events_of(before + seq![line] + after) == events_of(before) + events_of(after),
        faultless(before) && faultless(after) ==> faultless(before + seq![line] + after),
{
    lemma_outcomes_concat(before + seq![line], after);
    lemma_outcomes_concat(before, seq![line]);
    assert(seq![line].drop_last() =~= Seq::<Seq<char>>::empty());
    assert(events_of(seq![line].drop_last()) =~= Seq::<Map<Seq<char>, Json>>::empty());
    assert(seq![line].last() == line);
    assert(events_of(seq![line]) =~= Seq::<Map<Seq<char>, Json>>::empty());
    assert(events_of(before) + events_of(seq![line]) =~= events_of(before));
    if faultless(before) && faultless(after) {
        let all = before + seq![line] + after;
        assert forall|i: int| 0 <= i < all.len() implies !(#[trigger] line_outcome(all[i])
            is Fault) by {
            if i < before.len() {
                assert(all[i] == before[i]);
            } else if i == before.len() {
                assert(all[i] == line);
            } else {
                assert(all[i] == after[i - before.len() - 1]);
            }
        }
    }
}

/// Files what the parser made of line `line` under what was found before:
/// an object with the events, any other document with the ignored ones; an
/// error ends the extraction as a fault of that line.
pub fn keep_parsed(
    parsed: Result<Value, serde_json::Error>,
    line: usize,
    found: Extraction,
) -> (res: Result<Extraction, LineFault>)
    ensures
        match parsed {
            Ok(value) => res matches Ok(next) && match value_model(value) {
                Json::Object(entries) => {
                    &&& object_models(next.events@) == object_models(found.events@).push(entries)
                    &&& value_models(next.ignored@) == value_models(found.ignored@)
                },
                doc => {
                    &&& object_models(next.events@) == object_models(found.events@)
                    &&& value_models(next.ignored@) == value_models(found.ignored@).push(doc)
                },
            },
            Err(error) => res matches Err(fault) && fault.line == line && fault.message@
                == error_text(error) && value_models(fault.ignored@) == value_models(
                found.ignored@,
            ),
        },
{
    let mut events = found.events;
    let mut ignored = found.ignored;
    let ghost events_done = events@;
    let ghost ignored_done = ignored@;
    match parsed {
        Ok(value) => {
            match into_object(value) {
                Ok(object) => {
                    events.push(object);
                    proof {
                        assert(object_models(events@) =~= object_models(events_done).push(
                            object_model(object),
                        ));
                    }
                },
                Err(other) => {
                    ignored.push(other);
                    proof {
                        assert(value_models(ignored@) =~= value_models(ignored_done).push(
                            value_model(other),
                        ));
                    }
                },
            }
            Ok(Extraction { events, ignored })
        },
        Err(error) => Err(LineFault { line, message: error_message(&error), ignored }),
    }
}

/// Works through the lines of one text, adding to what was found before.
fn extract_more(contents: &str, found: Extraction) -> (res: Result<Extraction, LineFault>)
    ensures
        match res {
            Ok(all) => {
                &&& faultless(text_lines(contents@))
                &&& object_models(all.events@) == object_models(found.events@) + events_of(
                    text_lines(contents@),
                )
                &&& value_models(all.ignored@) == value_models(found.ignored@) + ignored_of(
                    text_lines(contents@),
                )
            },
            Err(fault) => {
                &&& is_first_fault(text_lines(contents@), fault.line as int)
                &&& line_outcome(text_lines(contents@)[fault.line as int]) == LineOutcome::Fault(
                    fault.message@,
                )
                &&& value_models(fault.ignored@) == value_models(found.ignored@) + ignored_of(
                    text_lines(contents@).take(fault.line as int),
                )
            },
        },
{
    let lines = split_lines(contents);
    let ghost all = text_lines(contents@);
    let ghost events_before = object_models(found.events@);
    let ghost ignored_before = value_models(found.ignored@);
    let mut kept = found;
    let mut i: usize = 0;
    proof {
        assert(all.take(0) =~= Seq::<Seq<char>>::empty());
        assert(events_before + events_of(all.take(0)) =~= events_before);
        assert(ignored_before + ignored_of(all.take(0)) =~= ignored_before);
    }
    while i < lines.len()
        invariant
            i <= lines.len(),
            all == text_lines(contents@),
            views(lines@) == all,
            ignored_before == value_models(found.ignored@),
            faultless(all.take(i as int)),
            object_models(kept.events@) == events_before + events_of(all.take(i as int)),
            value_models(kept.ignored@) == ignored_before + ignored_of(all.take(i as int)),
        decreases lines.len() - i,
    {
        let line = lines[i].as_str();
        let ghost done = all.take(i as int);
        let ghost next = all.take(i + 1);
        proof {
            assert(views(lines@)[i as int] == lines@[i as int]@);
            assert(line@ == all[i as int]);
            assert(next.drop_last() =~= done);
            assert(next.last() == line@);
        }
        if !line.is_empty() {
            match keep_parsed(parse_value(line), i, kept) {
                Ok(more) => {
                    kept = more;
                },
                Err(fault) => {
                    return Err(fault);
                },
            }
        }
        proof {
            assert(object_models(kept.events@) =~= events_before + events_of(next));
            assert(value_models(kept.ignored@) =~= ignored_before + ignored_of(next));
            assert forall|j: int| 0 <= j < next.len() implies !(#[trigger] line_outcome(next[j])
                is Fault) by {
                if j < i {
                    assert(next[j] == done[j]);
                }
            }
        }
        i = i + 1;
    }
    proof {
        assert(all.take(i as int) =~= all);
    }
    Ok(kept)
}

/// Extracts the events of one file's text.
///
/// Succeeds exactly when no line is a fault, and then returns the events and
/// the ignored documents in line order. Otherwise it names the first fault
/// and returns the documents that were ignored before it.
pub fn extract_file_events(contents: &str) -> (res: Result<Extraction, LineFault>)
    ensures
        match res {
            Ok(found) => {
                &&& faultless(text_lines(contents@))
                &&& object_models(found.events@) == events_of(text_lines(contents@))
                &&& value_models(found.ignored@) == ignored_of(text_lines(contents@))
            },
            Err(fault) => {
                &&& is_first_fault(text_lines(contents@), fault.line as int)
                &&& line_outcome(text_lines(contents@)[fault.line as int]) == LineOutcome::Fault(
                    fault.message@,
                )
                &&& value_models(fault.ignored@) == ignored_of(
                    text_lines(contents@).take(fault.line as int),
                )
            },
        },
{
    let empty = Extraction { events: Vec::new(), ignored: Vec::new() };
    proof {
        assert(object_models(empty.events@) =~= Seq::<Map<Seq<char>, Json>>::empty());
        assert(value_models(empty.ignored@) =~= Seq::<Json>::empty());
        let lines = text_lines(contents@);
        assert(Seq::<Map<Seq<char>, Json>>::empty() + events_of(lines) =~= events_of(lines));
        assert(Seq::<Json>::empty() + ignored_of(lines) =~= ignored_of(lines));
        assert forall|k: int| #![auto]
            Seq::<Json>::empty() + ignored_of(lines.take(k)) =~= ignored_of(lines.take(k)) by {}
    }
    extract_more(contents, empty)
}

/// The lines that were worked through before the extraction ended at line
/// `line` of file `file`; for a file that was not read, at its beginning.
pub open spec fn lines_before(files: Seq<SourceFile>, file: int, fault: ExtractFault) -> Seq<
    Seq<char>,
> {
    all_lines(files.take(file)) + match fault {
        ExtractFault::Unreadable { .. } => Seq::empty(),
        ExtractFault::Malformed { line, .. } => file_lines(files[file]).take(line as int),
    }
}

/// Extracts the events of all files, in file order, then line order.
///
/// Succeeds exactly when every file was read and holds no fault. Otherwise
/// the error names the first file that was not read or holds a fault, for a
/// fault its first faulty line with the parser's diagnostic, and returns the
/// documents that were ignored before the extraction ended.
pub fn extract_events(files: &Vec<SourceFile>) -> (res: Result<Extraction, ExtractError>)
    ensures
        match res {
            Ok(found) => {
                &&& forall|i: int| 0 <= i < files@.len() ==> file_sound(#[trigger] files@[i])
                &&& object_models(found.events@) == events_of(all_lines(files@))
                &&& value_models(found.ignored@) == ignored_of(all_lines(files@))
            },
            Err(error) => {
                &&& 0 <= error.file < files@.len()
                &&& forall|i: int| 0 <= i < error.file ==> file_sound(#[trigger] files@[i])
                &&& error.path@ == files@[error.file as int].path@
                &&& match files@[error.file as int].contents {
                    Err(cause) => error.fault matches ExtractFault::Unreadable { cause: c }
                        && c@ == cause@,
                    Ok(text) => error.fault matches ExtractFault::Malformed { line, message }
                        && is_first_fault(text_lines(text@), line as int) && line_outcome(
                        text_lines(text@)[line as int],
                    ) == LineOutcome::Fault(message@),
                }
                &&& value_models(error.ignored@) == ignored_of(
                    lines_before(files@, error.file as int, error.fault),
                )
            },
        },
{
    let mut found = Extraction { events: Vec::new(), ignored: Vec::new() };
    let mut i: usize = 0;
    proof {
        assert(files@.take(0) =~= Seq::<SourceFile>::empty());
        assert(object_models(found.events@) =~= Seq::<Map<Seq<char>, Json>>::empty());
        assert(value_models(found.ignored@) =~= Seq::<Json>::empty());
    }
    while i < files.len()
        invariant
            i <= files.len(),
            forall|j: int| 0 <= j < i ==> file_sound(#[trigger] files@[j]),
            object_models(found.events@) == events_of(all_lines(files@.take(i as int))),
            value_models(found.ignored@) == ignored_of(all_lines(files@.take(i as int))),
        decreases files.len() - i,
    {
        let file = &files[i];
        let ghost done = all_lines(files@.take(i as int));
        proof {
            let next = files@.take(i + 1);
            assert(next.drop_last() =~= files@.take(i as int));
            assert(next.last() == files@[i as int]);
            lemma_outcomes_concat(done, file_lines(files@[i as int]));
        }
        match &file.contents {
            Err(cause) => {
                proof {
                    assert(done + Seq::<Seq<char>>::empty() =~= done);
                }
                return Err(
                    ExtractError {
                        file: i,
                        path: file.path.clone(),
                        fault: ExtractFault::Unreadable { cause: cause.clone() },
                        ignored: found.ignored,
                    },
                );
            },
            Ok(text) => {
                match extract_more(text.as_str(), found) {
                    Ok(more) => {
                        found = more;
                    },
                    Err(fault) => {
                        proof {
                            lemma_outcomes_concat(
                                done,
                                text_lines(text@).take(fault.line as int),
                            );
                        }
                        return Err(
                            ExtractError {
                                file: i,
                                path: file.path.clone(),
                                fault: ExtractFault::Malformed {
                                    line: fault.line,
                                    message: fault.message,
                                },
                                ignored: fault.ignored,
                            },
                        );
                    },
                }
            },
        }
        i = i + 1;
    }
    proof {
        assert(files@.take(i as int) =~= files@);
    }
    Ok(found)
}

} // verus!
