//! The journal of burials: one record to a line, three columns to a record,
//! a tab between each two columns and a line feed after each record.

use crate::path::{path_starts_with, starts_with};
use crate::text::{
    contains_text, glued, holds_char, lemma_glued_pieces, lemma_pieces_concat,
    lemma_pieces_plain, lemma_pieces_whole, lemma_pieces_within, pieces, split, texts, to_chars,
};
use vstd::prelude::*;

verus! {

/// One burial: who buried, what was buried and where it rests.
#[derive(Debug, PartialEq, Eq)]
pub struct Record {
    /// The user who buried the object.
    pub actor: String,
    /// The absolute path at which the object stood, and to which it returns.
    pub original: String,
    /// The absolute path in the graveyard at which it rests.
    pub grave: String,
}

/// A record as three texts.
pub struct RecordView {
    pub actor: Seq<char>,
    pub original: Seq<char>,
    pub grave: Seq<char>,
}

impl View for Record {
    type V = RecordView;

    open spec fn view(&self) -> RecordView {
        RecordView { actor: self.actor@, original: self.original@, grave: self.grave@ }
    }
}

/// Why a journal could not be read or written.
#[derive(Debug, Clone, Copy, PartialEq, Eq)]
pub enum JournalError {
    /// A line of the journal does not hold three columns. Lines count from 1.
    Corrupt { line: usize },
    /// A column to be written holds a tab or a line feed.
    Unrecordable,
}

/// The records of a list as texts.
pub open spec fn entries(records: Seq<Record>) -> Seq<RecordView> {
    records.map_values(|r: Record| r@)
}

/// Whether `field` can stand in a column: it holds neither a tab nor a line
/// feed.
pub open spec fn is_column(field: Seq<char>) -> bool {
    !field.contains('\t') && !field.contains('\n')
}

impl RecordView {
    /// Whether each of the three texts can stand in a column.
    pub open spec fn is_recordable(self) -> bool {
        is_column(self.actor) && is_column(self.original) && is_column(self.grave)
    }

    /// The line of the journal that holds this record, without its line feed.
    pub open spec fn line(self) -> Seq<char> {
        self.actor + seq!['\t'] + self.original + seq!['\t'] + self.grave
    }
}

/// The record that a line holds, where it has exactly three columns.
pub open spec fn parsed(line: Seq<char>) -> Option<RecordView> {
    let columns = pieces(line, '\t');
    if columns.len() == 3 {
        Some(RecordView { actor: columns[0], original: columns[1], grave: columns[2] })
    } else {
        None
    }
}

/// The lines of a text: its pieces between line feeds, without the empty
/// piece that follows a last line feed.
pub open spec fn lines_of(text: Seq<char>) -> Seq<Seq<char>> {
    let all = pieces(text, '\n');
    if all.last().len() == 0 {
        all.drop_last()
    } else {
        all
    }
}

/// The records that a journal holds, where each of its lines holds one.
pub open spec fn scanned(text: Seq<char>) -> Option<Seq<RecordView>> {
    let lines = lines_of(text);
    if forall|i: int| 0 <= i < lines.len() ==> parsed(#[trigger] lines[i]).is_some() {
        Some(Seq::new(lines.len(), |i: int| parsed(lines[i]).unwrap()))
    } else {
        None
    }
}

/// The text of a journal that holds `records`: each record's line, then a
/// line feed.
pub open spec fn rendered(records: Seq<RecordView>) -> Seq<char>
    decreases records.len(),
{
    if records.len() == 0 {
        Seq::empty()
    } else {
        rendered(records.drop_last()) + records.last().line() + seq!['\n']
    }
}

/// The test "rests in one of `graves`".
pub open spec fn rests_in(graves: Seq<Seq<char>>) -> spec_fn(RecordView) -> bool {
    |r: RecordView| graves.contains(r.grave)
}

/// The test "rests in none of `graves`".
pub open spec fn rests_elsewhere(graves: Seq<Seq<char>>) -> spec_fn(RecordView) -> bool {
    |r: RecordView| !graves.contains(r.grave)
}

/// The test "rests at `base` or below it".
pub open spec fn rests_below(base: Seq<char>) -> spec_fn(RecordView) -> bool {
    |r: RecordView| starts_with(r.grave, base)
}

/// The graves of `records`, in order.
pub open spec fn graves_of(records: Seq<RecordView>) -> Seq<Seq<char>> {
    records.map_values(|r: RecordView| r.grave)
}

impl Clone for Record {
    fn clone(&self) -> (copy: Record)
        ensures
            copy@ == self@,
    {
        Record {
            actor: self.actor.clone(),
            original: self.original.clone(),
            grave: self.grave.clone(),
        }
    }
}

/// Whether `field` holds neither a tab nor a line feed.
pub fn can_record(field: &str) -> (ok: bool)
    ensures
        ok == is_column(field@),
{
    !holds_char(field, '\t') && !holds_char(field, '\n')
}

/// The text to append to the journal for a burial by `actor` of `source`
/// into `dest`: the record's line and a line feed. It is refused where one
/// of the three holds a tab or a line feed.
pub fn write_log(actor: &str, source: &str, dest: &str) -> (text: Result<String, JournalError>)
    ensures
        text.is_ok() == (RecordView {
            actor: actor@,
            original: source@,
            grave: dest@,
        }).is_recordable(),
        text matches Ok(t) ==> t@ == (RecordView {
            actor: actor@,
            original: source@,
            grave: dest@,
        }).line() + seq!['\n'],
        text matches Err(e) ==> e == JournalError::Unrecordable,
{
    if !can_record(actor) || !can_record(source) || !can_record(dest) {
        return Err(JournalError::Unrecordable);
    }
    let mut t = actor.to_owned();
    t.push('\t');
    t.append(source);
    t.push('\t');
    t.append(dest);
    t.push('\n');
    Ok(t)
}

/// Parse a line of the journal into a record. A line that does not hold
/// exactly three columns holds none.
pub fn record_entry(line: &str) -> (record: Option<Record>)
    ensures
        record.is_some() == parsed(line@).is_some(),
        record matches Some(r) ==> parsed(line@) == Some(r@),
{
    let chars = to_chars(line);
    let mut columns = split(&chars, '\t');
    if columns.len() != 3 {
        return None;
    }
    let ghost cols = texts(columns@);
    let grave = columns.pop().unwrap();
    let original = columns.pop().unwrap();
    let actor = columns.pop().unwrap();
    proof {
        assert(grave@ == cols[2]);
    }
    Some(Record { actor, original, grave })
}

/// Whether line `n`, counted from 1, is the first of `lines` that holds no
/// record.
pub open spec fn is_first_corrupt(lines: Seq<Seq<char>>, n: int) -> bool {
    &&& 1 <= n <= lines.len()
    &&& parsed(lines[n - 1]).is_none()
    &&& forall|i: int| 0 <= i < n - 1 ==> parsed(#[trigger] lines[i]).is_some()
}

/// Read a whole journal. Every line must hold a record: the first that does
/// not is reported, and nothing is skipped.
pub fn scan(text: &str) -> (records: Result<Vec<Record>, JournalError>)
    ensures
        records.is_ok() == scanned(text@).is_some(),
        records matches Ok(rs) ==> scanned(text@) == Some(entries(rs@)),
        records matches Err(e) ==> e matches JournalError::Corrupt { line } && is_first_corrupt(
            lines_of(text@),
            line as int,
        ),
{
    let chars = to_chars(text);
    let all = split(&chars, '\n');
    proof {
        lemma_pieces_plain(text@, '\n');
    }
    let mut n: usize = all.len();
    if all[n - 1].as_str().is_empty() {
        n = n - 1;
    }
    let ghost lines = lines_of(text@);
    let mut out: Vec<Record> = Vec::new();
    let mut i: usize = 0;
    while i < n
        invariant
            i <= n <= all.len(),
            lines == lines_of(text@),
            lines == texts(all@).take(n as int),
            out.len() == i,
            forall|j: int| 0 <= j < i ==> parsed(#[trigger] lines[j]) == Some(entries(out@)[j]),
        decreases n - i,
    {
        assert(lines[i as int] == all@[i as int]@);
        match record_entry(all[i].as_str()) {
            None => {
                return Err(JournalError::Corrupt { line: i + 1 });
            },
            Some(r) => {
                proof {
                    let grown = out@.push(r);
                    assert forall|j: int| 0 <= j < i + 1 implies parsed(#[trigger] lines[j])
                        == Some(entries(grown)[j]) by {
                        if j < i {
                            assert(entries(grown)[j] == entries(out@)[j]);
                        }
                    }
                }
                out.push(r);
            },
        }
        i += 1;
    }
    Ok(out)
}

/// The text of a journal that holds `records`, in their order. It is refused
/// where a column of a record holds a tab or a line feed.
pub fn render(records: &Vec<Record>) -> (text: Result<String, JournalError>)
    ensures
        text.is_ok() == (forall|i: int|
            0 <= i < records.len() ==> (#[trigger] entries(records@)[i]).is_recordable()),
        text matches Ok(t) ==> t@ == rendered(entries(records@)),
        text matches Err(e) ==> e == JournalError::Unrecordable,
{
    let mut t = String::new();
    let mut i: usize = 0;
    while i < records.len()
        invariant
            i <= records.len(),
            forall|j: int| 0 <= j < i ==> (#[trigger] entries(records@)[j]).is_recordable(),
            t@ == rendered(entries(records@).take(i as int)),
        decreases records.len() - i,
    {
        let r = &records[i];
        match write_log(r.actor.as_str(), r.original.as_str(), r.grave.as_str()) {
            Err(e) => {
                assert(!entries(records@)[i as int].is_recordable());
                return Err(e);
            },
            Ok(line) => {
                proof {
                    let head = entries(records@).take(i as int);
                    let next = entries(records@).take(i + 1);
                    assert(next.drop_last() == head);
                }
                t.append(line.as_str());
            },
        }
        i += 1;
    }
    assert(entries(records@).take(records.len() as int) == entries(records@));
    Ok(t)
}

/// The records, in their order, that rest in one of `graves`.
pub fn lines_of_graves(records: &Vec<Record>, graves: &Vec<String>) -> (found: Vec<Record>)
    ensures
        entries(found@) == entries(records@).filter(rests_in(texts(graves@))),
{
    let mut found: Vec<Record> = Vec::new();
    let mut i: usize = 0;
    let ghost all = entries(records@);
    let ghost test = rests_in(texts(graves@));
    proof {
        reveal(Seq::filter);
    }
    while i < records.len()
        invariant
            i <= records.len(),
            all == entries(records@),
            test == rests_in(texts(graves@)),
            entries(found@) == all.take(i as int).filter(test),
        decreases records.len() - i,
    {
        proof {
            reveal(Seq::filter);
            assert(all.take(i + 1).drop_last() == all.take(i as int));
        }
        if contains_text(graves, &records[i].grave) {
            let r = records[i].clone();
            proof {
                assert(entries(found@.push(r)) == entries(found@).push(r@));
            }
            found.push(r);
        }
        i += 1;
    }
    assert(all.take(records.len() as int) == all);
    found
}

/// The records, in their order, that rest in none of `graves`: what stays in
/// the journal when those graves are taken out of it.
pub fn delete_lines_from_record(records: &Vec<Record>, graves: &Vec<String>) -> (kept: Vec<Record>)
    ensures
        entries(kept@) == entries(records@).filter(rests_elsewhere(texts(graves@))),
{
    let mut kept: Vec<Record> = Vec::new();
    let mut i: usize = 0;
    let ghost all = entries(records@);
    let ghost test = rests_elsewhere(texts(graves@));
    proof {
        reveal(Seq::filter);
    }
    while i < records.len()
        invariant
            i <= records.len(),
            all == entries(records@),
            test == rests_elsewhere(texts(graves@)),
            entries(kept@) == all.take(i as int).filter(test),
        decreases records.len() - i,
    {
        proof {
            reveal(Seq::filter);
            assert(all.take(i + 1).drop_last() == all.take(i as int));
        }
        if !contains_text(graves, &records[i].grave) {
            let r = records[i].clone();
            proof {
                assert(entries(kept@.push(r)) == entries(kept@).push(r@));
            }
            kept.push(r);
        }
        i += 1;
    }
    assert(all.take(records.len() as int) == all);
    kept
}

/// The graves, in the journal's order, that rest at `gravepath` or below it.
pub fn seance(records: &Vec<Record>, gravepath: &str) -> (graves: Vec<String>)
    ensures
        texts(graves@) == graves_of(entries(records@).filter(rests_below(gravepath@))),
{
    let mut graves: Vec<String> = Vec::new();
    let mut i: usize = 0;
    let ghost all = entries(records@);
    let ghost test = rests_below(gravepath@);
    proof {
        reveal(Seq::filter);
    }
    while i < records.len()
        invariant
            i <= records.len(),
            all == entries(records@),
            test == rests_below(gravepath@),
            texts(graves@) == graves_of(all.take(i as int).filter(test)),
        decreases records.len() - i,
    {
        proof {
            reveal(Seq::filter);
            assert(all.take(i + 1).drop_last() == all.take(i as int));
        }
        if path_starts_with(records[i].grave.as_str(), gravepath) {
            let g = records[i].grave.clone();
            proof {
                let before = all.take(i as int).filter(test);
                assert(graves_of(before.push(records@[i as int]@)) == graves_of(before).push(g@));
            }
            graves.push(g);
        }
        i += 1;
    }
    assert(all.take(records.len() as int) == all);
    graves
}

/// The lines of `records`, in order.
pub open spec fn lines_for(records: Seq<RecordView>) -> Seq<Seq<char>> {
    records.map_values(|r: RecordView| r.line())
}

/// What is written is read back: the line of a record whose columns hold no
/// tab holds that record.
pub proof fn lemma_line_parses(r: RecordView)
    requires
        !r.actor.contains('\t'),
        !r.original.contains('\t'),
        !r.grave.contains('\t'),
    ensures
        parsed(r.line()) == Some(r),
{
    lemma_pieces_whole(r.actor, '\t');
    lemma_pieces_whole(r.original, '\t');
    lemma_pieces_whole(r.grave, '\t');
    lemma_pieces_concat(r.actor, r.original, '\t');
    lemma_pieces_concat(r.actor + seq!['\t'] + r.original, r.grave, '\t');
    let columns = pieces(r.line(), '\t');
    assert(columns == seq![r.actor, r.original, r.grave]);
}

/// What is read is what was written: a line that holds a record is that
/// record's line.
pub proof fn lemma_parsed_line(line: Seq<char>)
    requires
        parsed(line).is_some(),
    ensures
        parsed(line).unwrap().line() == line,
{
    let columns = pieces(line, '\t');
    lemma_glued_pieces(line, '\t');
    let two = columns.drop_last();
    assert(glued(two.drop_last(), '\t') == columns[0]);
    assert(glued(two, '\t') == columns[0] + seq!['\t'] + columns[1]);
}

/// The columns of a record that was read from one line of a journal can be
/// written again.
pub proof fn lemma_parsed_recordable(line: Seq<char>)
    requires
        !line.contains('\n'),
        parsed(line).is_some(),
    ensures
        parsed(line).unwrap().is_recordable(),
{
    lemma_pieces_plain(line, '\t');
    lemma_pieces_within(line, '\t', '\n');
}

/// The text of a journal falls into the lines of its records, and an empty
/// piece behind the last line feed.
pub proof fn lemma_pieces_rendered(records: Seq<RecordView>)
    requires
        forall|i: int| 0 <= i < records.len() ==> (#[trigger] records[i]).is_recordable(),
    ensures
        pieces(rendered(records), '\n') == lines_for(records).push(Seq::empty()),
    decreases records.len(),
{
    if records.len() == 0 {
        assert(lines_for(records).push(Seq::<char>::empty()) == seq![Seq::<char>::empty()]);
    } else {
        let init = records.drop_last();
        let last = records.last();
        lemma_pieces_rendered(init);
        let line = last.line();
        assert(!line.contains('\n')) by {
            if line.contains('\n') {
                let k = choose|k: int| 0 <= k < line.len() && line[k] == '\n';
                let a = last.actor.len();
                let o = last.original.len();
                if k < a {
                    assert(last.actor.contains(last.actor[k]));
                } else if k == a {
                } else if k < a + 1 + o {
                    assert(last.original.contains(last.original[k - a - 1]));
                } else if k == a + 1 + o {
                } else {
                    assert(last.grave.contains(last.grave[k - a - o - 2]));
                }
            }
        }
        lemma_pieces_whole(line, '\n');
        let head = rendered(init);
        let empty = Seq::<char>::empty();
        lemma_pieces_concat(head + line, empty, '\n');
        if init.len() == 0 {
            assert(head + line == line);
        } else {
            let body = rendered(init.drop_last()) + init.last().line();
            lemma_pieces_concat(body, empty, '\n');
            assert(pieces(body, '\n') == lines_for(init)) by {
                let both = pieces(body, '\n') + seq![empty];
                assert(both.drop_last() == pieces(body, '\n'));
            }
            lemma_pieces_concat(body, line, '\n');
            assert(lines_for(init) + seq![line] == lines_for(records)) by {
                assert(init.push(last) == records);
            }
        }
    }
}

/// A journal that was written is read back as it was: scanning the text of
/// `records` gives `records`.
pub proof fn lemma_scan_rendered(records: Seq<RecordView>)
    requires
        forall|i: int| 0 <= i < records.len() ==> (#[trigger] records[i]).is_recordable(),
    ensures
        scanned(rendered(records)) == Some(records),
{
    lemma_pieces_rendered(records);
    let text = rendered(records);
    let lines = lines_of(text);
    assert(lines == lines_for(records)) by {
        assert(lines_for(records).push(Seq::<char>::empty()).drop_last() == lines_for(records));
    }
    assert forall|i: int| 0 <= i < lines.len() implies parsed(#[trigger] lines[i]) == Some(
        records[i],
    ) by {
        lemma_line_parses(records[i]);
    }
}

/// Every record that was read from a journal can be written again.
pub proof fn lemma_scanned_recordable(text: Seq<char>)
    requires
        scanned(text).is_some(),
    ensures
        forall|i: int|
            0 <= i < scanned(text).unwrap().len() ==> (#[trigger] scanned(
                text,
            ).unwrap()[i]).is_recordable(),
{
    lemma_pieces_plain(text, '\n');
    let lines = lines_of(text);
    assert forall|i: int| 0 <= i < scanned(text).unwrap().len() implies (#[trigger] scanned(
        text,
    ).unwrap()[i]).is_recordable() by {
        lemma_parsed_recordable(lines[i]);
    }
}

/// Appending adds at the end: a journal that is empty or ends in a line
/// feed, with the line of a record and a line feed appended, holds the lines
/// it held and then that line; so where it held records it now holds them
/// and then the new one.
pub proof fn lemma_append_record(text: Seq<char>, r: RecordView)
    requires
        text.len() == 0 || text.last() == '\n',
        r.is_recordable(),
    ensures
        lines_of(text + r.line() + seq!['\n']) == lines_of(text).push(r.line()),
        scanned(text).is_some() ==> scanned(text + r.line() + seq!['\n']) == Some(
            scanned(text).unwrap().push(r),
        ),
{
    let line = r.line();
    let empty = Seq::<char>::empty();
    let grown = text + line + seq!['\n'];
    lemma_pieces_rendered(seq![r]);
    assert(rendered(seq![r]) == line + seq!['\n']) by {
        assert(seq![r].drop_last() == Seq::<RecordView>::empty());
        assert(rendered(Seq::<RecordView>::empty()) == empty);
    }
    if text.len() == 0 {
        assert(grown == line + seq!['\n']);
    } else {
        let body = text.drop_last();
        lemma_pieces_concat(body, empty, '\n');
        let held = pieces(body, '\n');
        assert(pieces(text, '\n') == held + seq![empty]);
        lemma_pieces_concat(body, line + seq!['\n'], '\n');
        assert(body + seq!['\n'] + (line + seq!['\n']) == grown);
    }
    if scanned(text).is_some() {
        let before = lines_of(text);
        let after = lines_of(grown);
        lemma_line_parses(r);
        assert forall|i: int| 0 <= i < after.len() implies parsed(#[trigger] after[i]).is_some() by {
            if i < before.len() {
                assert(after[i] == before[i]);
            }
        }
        assert(Seq::new(after.len(), |i: int| parsed(after[i]).unwrap()) == scanned(
            text,
        ).unwrap().push(r)) by {
            assert forall|i: int| 0 <= i < after.len() implies parsed(after[i]).unwrap() == scanned(
                text,
            ).unwrap().push(r)[i] by {
                if i < before.len() {
                    assert(after[i] == before[i]);
                }
            }
        }
    }
}

} // verus!
